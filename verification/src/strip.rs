//! Whole-file whitespace stripping, applied to the raw source before
//! tokenization. Whitespace here is the deliberate ASCII set of
//! [`crate::chars::is_ws`].

use vstd::prelude::*;

use crate::chars::{is_ws, NL, SP};
use crate::scan::{at, find, lemma_at1, lemma_find_is, lemma_find_is_none};
use crate::source::{lemma_ws_lo_bounds, lemma_ws_lo_stops, ws_hi, ws_hi_exec, ws_lo, ws_lo_exec};
use vstd::slice::slice_subrange;

verus! {

/// How the raw source is stripped before scanning.
#[derive(Clone, Copy, PartialEq, Eq, Structural, Debug)]
pub enum Strip {
    /// Leave the source as it stands.
    Keep,
    /// Remove one line feed at the very end, if there is one.
    Tail,
    /// Trim every line and drop lines that are left empty.
    Trim,
    /// As `Trim`, and collapse every whitespace run inside a line to one
    /// space.
    Eager,
}

/// First index at or after `lo` and below `hi` holding whitespace, or
/// `hi`.
pub open spec fn nonws_hi(s: Seq<u8>, lo: int, hi: int) -> int
    decreases hi - lo,
{
    if lo >= hi {
        hi
    } else if !is_ws(s[lo]) {
        nonws_hi(s, lo + 1, hi)
    } else {
        lo
    }
}

/// The word cursor stays within its range.
pub proof fn lemma_nonws_hi_bounds(s: Seq<u8>, lo: int, hi: int)
    requires
        lo <= hi,
    ensures
        lo <= nonws_hi(s, lo, hi) <= hi,
    decreases hi - lo,
{
    if lo < hi && !is_ws(s[lo]) {
        lemma_nonws_hi_bounds(s, lo + 1, hi);
    }
}

/// The words of `s[lo, hi)`, joined by single spaces.
pub open spec fn collapsed(s: Seq<u8>, lo: int, hi: int, first: bool) -> Seq<u8>
    decreases hi - lo,
    when lo <= hi
    via collapsed_dec
{
    let w0 = ws_lo(s, lo, hi);
    if w0 >= hi {
        Seq::empty()
    } else {
        let w1 = nonws_hi(s, w0, hi);
        (if first {
            Seq::empty()
        } else {
            seq![SP]
        }) + s.subrange(w0, w1) + collapsed(s, w1, hi, false)
    }
}

#[via_fn]
proof fn collapsed_dec(s: Seq<u8>, lo: int, hi: int, first: bool) {
    lemma_ws_lo_bounds(s, lo, hi);
    lemma_ws_lo_stops(s, lo, hi);
    let w0 = ws_lo(s, lo, hi);
    if w0 < hi {
        assert(!is_ws(s[w0]));
        lemma_nonws_hi_bounds(s, w0 + 1, hi);
        assert(nonws_hi(s, w0, hi) > w0);
    }
}

/// One line of the stripped output: the line trimmed, or its words
/// joined by single spaces.
pub open spec fn stripped_line(s: Seq<u8>, lo: int, hi: int, eager: bool) -> Seq<u8>
    recommends
        lo <= hi,
{
    if eager {
        collapsed(s, lo, hi, true)
    } else {
        let a = ws_lo(s, lo, hi);
        s.subrange(a, ws_hi(s, a, hi))
    }
}

/// The stripped text from position `i` on: each line trimmed, empty
/// results dropped, the rest joined by line feeds.
pub open spec fn stripped_from(s: Seq<u8>, i: int, first: bool, eager: bool) -> Seq<u8>
    decreases s.len() - i,
    when 0 <= i <= s.len()
    via stripped_from_dec
{
    if i >= s.len() {
        Seq::empty()
    } else {
        let e = match find(s, seq![NL], i) {
            Some(k) => k,
            None => s.len() as int,
        };
        let nxt = if e < s.len() {
            e + 1
        } else {
            s.len() as int
        };
        let piece = stripped_line(s, i, e, eager);
        if piece.len() == 0 {
            stripped_from(s, nxt, first, eager)
        } else {
            (if first {
                Seq::empty()
            } else {
                seq![NL]
            }) + piece + stripped_from(s, nxt, false, eager)
        }
    }
}

#[via_fn]
proof fn stripped_from_dec(s: Seq<u8>, i: int, first: bool, eager: bool) {
    if 0 <= i < s.len() {
        match find(s, seq![NL], i) {
            Some(k) => {
                crate::scan::lemma_find_some(s, seq![NL], i, k);
            },
            None => {},
        }
    }
}

/// The stripped form of a whole source.
pub open spec fn stripped(s: Seq<u8>, mode: Strip) -> Seq<u8> {
    match mode {
        Strip::Keep => s,
        Strip::Tail => if s.len() > 0 && s[s.len() - 1] == NL {
            s.subrange(0, s.len() - 1)
        } else {
            s
        },
        Strip::Trim => stripped_from(s, 0, true, false),
        Strip::Eager => stripped_from(s, 0, true, true),
    }
}

/// First index at or after `from` that holds whitespace, capped at `hi`.
fn nonws_hi_exec(s: &[u8], lo: usize, hi: usize) -> (r: usize)
    requires
        lo <= hi <= s@.len(),
    ensures
        r == nonws_hi(s@, lo as int, hi as int),
        lo <= r <= hi,
{
    let mut i: usize = lo;
    while i < hi && !ws_at_pub(s, i)
        invariant
            lo <= i <= hi <= s@.len(),
            nonws_hi(s@, lo as int, hi as int) == nonws_hi(s@, i as int, hi as int),
        decreases hi - i,
    {
        i = i + 1;
    }
    proof {
        lemma_nonws_hi_bounds(s@, i as int, hi as int);
    }
    i
}

/// Executable whitespace test on one byte of a text.
fn ws_at_pub(s: &[u8], i: usize) -> (r: bool)
    requires
        i < s@.len(),
    ensures
        r == is_ws(s@[i as int]),
{
    let b = s[i];
    b == 32 || b == 9 || b == 10 || b == 13 || b == 12
}

/// First line feed at or after `from`.
fn find_nl(s: &[u8], from: usize) -> (r: Option<usize>)
    requires
        from <= s@.len(),
    ensures
        match r {
            Some(k) => find(s@, seq![NL], from as int) == Some(k as int) && from <= k < s@.len(),
            None => find(s@, seq![NL], from as int) is None,
        },
{
    let len = s.len();
    let mut k: usize = from;
    while k < len
        invariant
            from <= k <= len,
            len == s@.len(),
            forall|j: int| from <= j < k ==> !at(s@, j, seq![NL]),
        decreases len - k,
    {
        proof {
            lemma_at1(s@, k as int, NL);
        }
        if s[k] == NL {
            proof {
                lemma_find_is(s@, seq![NL], from as int, k as int);
            }
            return Some(k);
        }
        k = k + 1;
    }
    proof {
        assert forall|j: int| from <= j implies !at(s@, j, seq![NL]) by {
            if j < s@.len() {
                lemma_at1(s@, j, NL);
            }
        }
        lemma_find_is_none(s@, seq![NL], from as int);
    }
    None
}

/// Append the collapsed words of `s[lo, hi)`.
fn collapse_into(out: &mut Vec<u8>, s: &[u8], lo: usize, hi: usize, first: bool)
    requires
        lo <= hi <= s@.len(),
    ensures
        final(out)@ == old(out)@ + collapsed(s@, lo as int, hi as int, first),
{
    let mut i: usize = lo;
    let mut fst: bool = first;
    while i < hi
        invariant
            lo <= i <= hi <= s@.len(),
            old(out)@ + collapsed(s@, lo as int, hi as int, first) == out@ + collapsed(
                s@,
                i as int,
                hi as int,
                fst,
            ),
        decreases hi - i,
    {
        let w0 = ws_lo_exec(s, i, hi);
        if w0 >= hi {
            assert(collapsed(s@, i as int, hi as int, fst) == Seq::<u8>::empty());
            assert(collapsed(s@, hi as int, hi as int, fst) == Seq::<u8>::empty());
            i = hi;
        } else {
            let w1 = nonws_hi_exec(s, w0, hi);
            proof {
                lemma_ws_lo_stops(s@, i as int, hi as int);
                assert(!is_ws(s@[w0 as int]));
                lemma_nonws_hi_bounds(s@, w0 + 1, hi as int);
                assert(nonws_hi(s@, w0 as int, hi as int) > w0);
            }
            if !fst {
                out.push(SP);
            }
            let ghost pre = out@;
            crate::render::append_bytes(out, slice_subrange(s, w0, w1));
            proof {
                assert(collapsed(s@, i as int, hi as int, fst) == (if fst {
                    Seq::<u8>::empty()
                } else {
                    seq![SP]
                }) + s@.subrange(w0 as int, w1 as int) + collapsed(
                    s@,
                    w1 as int,
                    hi as int,
                    false,
                ));
            }
            i = w1;
            fst = false;
        }
    }
    assert(collapsed(s@, i as int, hi as int, fst) == Seq::<u8>::empty());
}

/// The stripped form of one raw source.
pub fn apply_strip(src: &[u8], mode: Strip) -> (r: Vec<u8>)
    ensures
        r@ == stripped(src@, mode),
{
    let len = src.len();
    let mut out: Vec<u8> = Vec::new();
    match mode {
        Strip::Keep => {
            crate::render::append_bytes(&mut out, src);
            assert(src@.subrange(0, src@.len() as int) =~= src@);
            assert(out@ =~= stripped(src@, mode));
        },
        Strip::Tail => {
            if len > 0 && src[len - 1] == NL {
                let head = slice_subrange(src, 0, len - 1);
                crate::render::append_bytes(&mut out, head);
            } else {
                crate::render::append_bytes(&mut out, src);
                assert(src@.subrange(0, src@.len() as int) =~= src@);
            }
        },
        Strip::Trim => {
            strip_lines_into(&mut out, src, false);
        },
        Strip::Eager => {
            strip_lines_into(&mut out, src, true);
        },
    }
    out
}

/// Append the line-stripped form of the whole source.
fn strip_lines_into(out: &mut Vec<u8>, s: &[u8], eager: bool)
    ensures
        final(out)@ == old(out)@ + stripped_from(s@, 0, true, eager),
{
    let len = s.len();
    let mut i: usize = 0;
    let mut first: bool = true;
    while i < len
        invariant
            i <= len,
            len == s@.len(),
            old(out)@ + stripped_from(s@, 0, true, eager) == out@ + stripped_from(
                s@,
                i as int,
                first,
                eager,
            ),
        decreases len - i,
    {
        let e = match find_nl(s, i) {
            Some(k) => k,
            None => len,
        };
        let nxt = if e < len {
            e + 1
        } else {
            len
        };
        let ghost pre = out@;
        let mut piece: Vec<u8> = Vec::new();
        if eager {
            collapse_into(&mut piece, s, i, e, true);
        } else {
            let a = ws_lo_exec(s, i, e);
            let b = ws_hi_exec(s, a, e);
            crate::render::append_bytes(&mut piece, slice_subrange(s, a, b));
        }
        assert(piece@ == stripped_line(s@, i as int, e as int, eager));
        if piece.len() > 0 {
            if !first {
                out.push(NL);
            }
            crate::render::append_bytes(out, piece.as_slice());
            proof {
                assert(out@ =~= pre + (if first {
                    Seq::<u8>::empty()
                } else {
                    seq![NL]
                }) + piece@);
            }
            first = false;
        }
        i = nxt;
    }
    assert(stripped_from(s@, i as int, first, eager) == Seq::<u8>::empty());
}

} // verus!
