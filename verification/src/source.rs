//! Backing text and spans. A [`Source`] owns one template text; a
//! [`Span`] is a `[start, end)` byte range into one source, identified by
//! index, so that a derived span never copies text.

use vstd::prelude::*;
use vstd::slice::slice_subrange;

use crate::chars::{is_ws, NL};

verus! {

/// One backing template text with the path it was loaded from, if any.
pub struct Source {
    /// The raw bytes of the text.
    pub text: Vec<u8>,
    /// The path the text came from; synthesized sources have none.
    pub path: Option<Vec<u8>>,
}

/// A byte range `[start, end)` into the source with index `src`.
#[derive(Clone, Copy, PartialEq, Eq, Structural, Debug)]
pub struct Span {
    /// Index of the backing [`Source`].
    pub src: usize,
    /// First byte of the range.
    pub start: usize,
    /// One past the last byte of the range.
    pub end: usize,
}

impl Span {
    /// Whether the range lies inside a text of `n` bytes.
    pub open spec fn wf(self, n: int) -> bool {
        self.start <= self.end && self.end <= n
    }

    /// The bytes the span selects out of its backing text.
    pub open spec fn bytes(self, text: Seq<u8>) -> Seq<u8> {
        text.subrange(self.start as int, self.end as int)
    }

    /// The selected bytes, as a slice of the backing text.
    pub fn slice_of<'a>(&self, text: &'a [u8]) -> (r: &'a [u8])
        requires
            self.wf(text@.len() as int),
        ensures
            r@ == self.bytes(text@),
    {
        slice_subrange(text, self.start, self.end)
    }

    /// The number of bytes the span selects.
    pub fn len(&self) -> (r: usize)
        requires
            self.start <= self.end,
        ensures
            r == self.end - self.start,
    {
        self.end - self.start
    }

    /// Whether the span selects nothing.
    pub fn is_empty(&self) -> (r: bool)
        requires
            self.start <= self.end,
        ensures
            r == (self.start == self.end),
    {
        self.start == self.end
    }

    /// Whether two spans select the same bytes out of their backing
    /// texts; this, not range identity, is what equality of template
    /// fragments means.
    pub fn same_text(&self, mine: &[u8], other: &Span, theirs: &[u8]) -> (r: bool)
        requires
            self.wf(mine@.len() as int),
            other.wf(theirs@.len() as int),
        ensures
            r == (self.bytes(mine@) == other.bytes(theirs@)),
    {
        crate::path::eq_bytes(self.slice_of(mine), other.slice_of(theirs))
    }
}

/// The number of line feeds in `text` before byte `off`.
pub open spec fn nl_before(text: Seq<u8>, off: int) -> int
    decreases off,
{
    if off <= 0 {
        0
    } else {
        nl_before(text, off - 1) + if text[off - 1] == NL {
            1int
        } else {
            0int
        }
    }
}

/// The 1-based line of byte `off`.
pub open spec fn line_at(text: Seq<u8>, off: int) -> int {
    1 + nl_before(text, off)
}

/// The first byte of the line that byte `off` lies on.
pub open spec fn line_start_at(text: Seq<u8>, off: int) -> int
    decreases off,
{
    if off <= 0 {
        0
    } else if text[off - 1] == NL {
        off
    } else {
        line_start_at(text, off - 1)
    }
}

/// Whether a byte starts a UTF-8 encoded character (it is not a
/// continuation byte).
pub open spec fn starts_char(b: u8) -> bool {
    !(128 <= b < 192)
}

/// The number of characters encoded in `text` between bytes `lo` and `hi`.
pub open spec fn chars_between(text: Seq<u8>, lo: int, hi: int) -> int
    decreases hi - lo,
{
    if hi <= lo {
        0
    } else {
        chars_between(text, lo, hi - 1) + if starts_char(text[hi - 1]) {
            1int
        } else {
            0int
        }
    }
}

/// The 1-based column of byte `off`, counted in characters from the start
/// of its line.
pub open spec fn column_at(text: Seq<u8>, off: int) -> int {
    1 + chars_between(text, line_start_at(text, off), off)
}

/// The 1-based line number of byte `off`.
pub fn line_of(text: &[u8], off: usize) -> (r: usize)
    requires
        off <= text@.len(),
        text@.len() < usize::MAX,
    ensures
        r == line_at(text@, off as int),
{
    let mut count: usize = 0;
    let mut i: usize = 0;
    while i < off
        invariant
            i <= off <= text@.len() < usize::MAX,
            count == nl_before(text@, i as int),
            count <= i,
        decreases off - i,
    {
        if text[i] == NL {
            count = count + 1;
        }
        i = i + 1;
    }
    count + 1
}

/// The 1-based column of byte `off` in characters.
pub fn column_of(text: &[u8], off: usize) -> (r: usize)
    requires
        off <= text@.len(),
        text@.len() < usize::MAX,
    ensures
        r == column_at(text@, off as int),
{
    let mut ls: usize = off;
    while ls > 0 && text[ls - 1] != NL
        invariant
            ls <= off <= text@.len(),
            line_start_at(text@, off as int) == line_start_at(text@, ls as int),
        decreases ls,
    {
        ls = ls - 1;
    }
    assert(line_start_at(text@, ls as int) == ls as int);
    let mut count: usize = 0;
    let mut i: usize = ls;
    while i < off
        invariant
            ls <= i <= off <= text@.len() < usize::MAX,
            count == chars_between(text@, ls as int, i as int),
            count <= i - ls,
        decreases off - i,
    {
        let b = text[i];
        if b < 128 || b >= 192 {
            count = count + 1;
        }
        i = i + 1;
    }
    count + 1
}

/// First index in `[lo, hi)` holding a byte that is not ASCII whitespace,
/// or `hi` if there is none.
pub open spec fn ws_lo(s: Seq<u8>, lo: int, hi: int) -> int
    decreases hi - lo,
{
    if lo >= hi {
        hi
    } else if is_ws(s[lo]) {
        ws_lo(s, lo + 1, hi)
    } else {
        lo
    }
}

/// One past the last index in `[lo, hi)` holding a byte that is not ASCII
/// whitespace, or `lo` if there is none.
pub open spec fn ws_hi(s: Seq<u8>, lo: int, hi: int) -> int
    decreases hi - lo,
{
    if hi <= lo {
        lo
    } else if is_ws(s[hi - 1]) {
        ws_hi(s, lo, hi - 1)
    } else {
        hi
    }
}

/// The trim cursors stay within their range.
pub proof fn lemma_ws_lo_bounds(s: Seq<u8>, lo: int, hi: int)
    requires
        lo <= hi,
    ensures
        lo <= ws_lo(s, lo, hi) <= hi,
    decreases hi - lo,
{
    if lo < hi && is_ws(s[lo]) {
        lemma_ws_lo_bounds(s, lo + 1, hi);
    }
}

/// The trim cursors stay within their range.
pub proof fn lemma_ws_hi_bounds(s: Seq<u8>, lo: int, hi: int)
    requires
        lo <= hi,
    ensures
        lo <= ws_hi(s, lo, hi) <= hi,
    decreases hi - lo,
{
    if lo < hi && is_ws(s[hi - 1]) {
        lemma_ws_hi_bounds(s, lo, hi - 1);
    }
}

/// The left trim cursor stops at `hi` or on a non-whitespace byte.
pub proof fn lemma_ws_lo_stops(s: Seq<u8>, lo: int, hi: int)
    requires
        lo <= hi,
    ensures
        ws_lo(s, lo, hi) == hi || !is_ws(s[ws_lo(s, lo, hi)]),
    decreases hi - lo,
{
    if lo < hi && is_ws(s[lo]) {
        lemma_ws_lo_stops(s, lo + 1, hi);
    }
}

/// The left trim cursor never passes a non-whitespace byte.
pub proof fn lemma_ws_lo_le_nonws(s: Seq<u8>, lo: int, hi: int, p: int)
    requires
        lo <= p < hi,
        !is_ws(s[p]),
    ensures
        ws_lo(s, lo, hi) <= p,
    decreases hi - lo,
{
    if lo < hi && is_ws(s[lo]) {
        lemma_ws_lo_le_nonws(s, lo + 1, hi, p);
    }
}

/// The right trim cursor never passes a non-whitespace byte.
pub proof fn lemma_ws_hi_gt_nonws(s: Seq<u8>, lo: int, hi: int, p: int)
    requires
        lo <= p < hi,
        !is_ws(s[p]),
    ensures
        ws_hi(s, lo, hi) > p,
    decreases hi - lo,
{
    if hi > lo && is_ws(s[hi - 1]) {
        lemma_ws_hi_gt_nonws(s, lo, hi - 1, p);
    }
}

/// Executable whitespace test on one byte of a text.
fn ws_at(s: &[u8], i: usize) -> (r: bool)
    requires
        i < s@.len(),
    ensures
        r == is_ws(s@[i as int]),
{
    let b = s[i];
    b == 32 || b == 9 || b == 10 || b == 13 || b == 12
}

/// First non-whitespace position at or after `lo`, capped at `hi`.
pub fn ws_lo_exec(s: &[u8], lo: usize, hi: usize) -> (r: usize)
    requires
        lo <= hi <= s@.len(),
    ensures
        r == ws_lo(s@, lo as int, hi as int),
        lo <= r <= hi,
{
    let mut i: usize = lo;
    while i < hi && ws_at(s, i)
        invariant
            lo <= i <= hi <= s@.len(),
            ws_lo(s@, lo as int, hi as int) == ws_lo(s@, i as int, hi as int),
        decreases hi - i,
    {
        i = i + 1;
    }
    proof {
        lemma_ws_lo_bounds(s@, i as int, hi as int);
    }
    i
}

/// One past the last non-whitespace position below `hi`, floored at `lo`.
pub fn ws_hi_exec(s: &[u8], lo: usize, hi: usize) -> (r: usize)
    requires
        lo <= hi <= s@.len(),
    ensures
        r == ws_hi(s@, lo as int, hi as int),
        lo <= r <= hi,
{
    let mut i: usize = hi;
    while i > lo && ws_at(s, i - 1)
        invariant
            lo <= i <= hi <= s@.len(),
            ws_hi(s@, lo as int, hi as int) == ws_hi(s@, lo as int, i as int),
        decreases i,
    {
        i = i - 1;
    }
    proof {
        lemma_ws_hi_bounds(s@, lo as int, i as int);
    }
    i
}

} // verus!
