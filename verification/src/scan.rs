//! The block scanner. It turns one template text into blocks, trying
//! delimiter openers longest first, resolving the whitespace-trim markers
//! between neighbouring blocks with one block of lookahead, and dropping
//! comments and emptied literals. Trimming removes the deliberate ASCII
//! whitespace set of [`crate::chars::is_ws`].

use vstd::prelude::*;

use crate::chars::{GT, HASH, HYPH, LBRACE, LT, PCT, RBRACE};
use crate::source::{ws_hi, ws_lo, Span};

verus! {

/// How a data block renders its expression.
#[derive(Clone, Copy, PartialEq, Eq, Structural, Debug)]
pub enum DataKind {
    /// `{{{ … }}}`: display formatting, written verbatim.
    Raw,
    /// `{{ … }}`: display formatting through the escaper.
    Escaped,
    /// `{{{{ … }}}}`: debug formatting through the escaper.
    Debug,
    /// `{{{{{ … }}}}}`: verbose debug formatting through the escaper.
    Verbose,
}

/// One parsed template unit.
#[derive(Clone, Copy, PartialEq, Eq, Structural, Debug)]
pub enum Block {
    /// Literal text, written as it stands.
    Literal(Span),
    /// `{% … %}`: host code, spliced into the generated program.
    Code(Span),
    /// `{# … #}`: dropped before assembly.
    Comment,
    /// A data block with its rendering kind.
    Data(DataKind, Span),
    /// `{< … >}`: the named file's blocks stand in for this block.
    Embed(Span),
}

/// Why a scan failed.
#[derive(Clone, Copy, PartialEq, Eq, Structural, Debug)]
pub enum ParseErrorKind {
    /// An opener without its closer.
    Unterminated,
    /// A data or embed block whose body is empty after trimming.
    EmptyBody,
}

/// A fatal scan failure, carrying the position it happened at.
#[derive(Clone, Copy, PartialEq, Eq, Structural, Debug)]
pub struct ParseError {
    /// What went wrong.
    pub kind: ParseErrorKind,
    /// Index of the source the failure lies in.
    pub src: usize,
    /// Byte offset of the offending position in that source.
    pub offset: usize,
}

/// A block before its trim flags are resolved against its neighbours.
#[derive(Clone, Copy, PartialEq, Eq, Structural, Debug)]
pub struct RawBlock {
    /// Trim whitespace that precedes this block.
    pub lead: bool,
    /// Trim whitespace that follows this block.
    pub trail: bool,
    /// The block itself.
    pub block: Block,
}

/// The seven delimiter families, named by what they open.
#[derive(Clone, Copy, PartialEq, Eq, Structural, Debug)]
pub enum Delim {
    /// `{% … %}`
    Code,
    /// `{# … #}`
    Comment,
    /// `{< … >}`
    Embed,
    /// `{{{{{ … }}}}}`
    Verbose,
    /// `{{{{ … }}}}`
    Debug,
    /// `{{{ … }}}`
    Raw,
    /// `{{ … }}`
    Escaped,
}

/// The opening delimiter of a family.
pub open spec fn opener(d: Delim) -> Seq<u8> {
    match d {
        Delim::Code => seq![LBRACE, PCT],
        Delim::Comment => seq![LBRACE, HASH],
        Delim::Embed => seq![LBRACE, LT],
        Delim::Verbose => seq![LBRACE, LBRACE, LBRACE, LBRACE, LBRACE],
        Delim::Debug => seq![LBRACE, LBRACE, LBRACE, LBRACE],
        Delim::Raw => seq![LBRACE, LBRACE, LBRACE],
        Delim::Escaped => seq![LBRACE, LBRACE],
    }
}

/// The closing delimiter of a family.
pub open spec fn closer(d: Delim) -> Seq<u8> {
    match d {
        Delim::Code => seq![PCT, RBRACE],
        Delim::Comment => seq![HASH, RBRACE],
        Delim::Embed => seq![GT, RBRACE],
        Delim::Verbose => seq![RBRACE, RBRACE, RBRACE, RBRACE, RBRACE],
        Delim::Debug => seq![RBRACE, RBRACE, RBRACE, RBRACE],
        Delim::Raw => seq![RBRACE, RBRACE, RBRACE],
        Delim::Escaped => seq![RBRACE, RBRACE],
    }
}

/// The data kind a delimiter family stands for.
pub open spec fn kind_of(d: Delim) -> DataKind {
    match d {
        Delim::Verbose => DataKind::Verbose,
        Delim::Debug => DataKind::Debug,
        Delim::Raw => DataKind::Raw,
        _ => DataKind::Escaped,
    }
}

/// Whether `pat` occurs in `s` at position `i`.
pub open spec fn at(s: Seq<u8>, i: int, pat: Seq<u8>) -> bool {
    0 <= i && i + pat.len() <= s.len() && s.subrange(i, i + pat.len()) == pat
}

/// The delimiter family whose opener stands at `i`, trying longer openers
/// before their prefixes.
pub open spec fn delim_at(s: Seq<u8>, i: int) -> Option<Delim> {
    if at(s, i, opener(Delim::Verbose)) {
        Some(Delim::Verbose)
    } else if at(s, i, opener(Delim::Debug)) {
        Some(Delim::Debug)
    } else if at(s, i, opener(Delim::Raw)) {
        Some(Delim::Raw)
    } else if at(s, i, opener(Delim::Escaped)) {
        Some(Delim::Escaped)
    } else if at(s, i, opener(Delim::Code)) {
        Some(Delim::Code)
    } else if at(s, i, opener(Delim::Comment)) {
        Some(Delim::Comment)
    } else if at(s, i, opener(Delim::Embed)) {
        Some(Delim::Embed)
    } else {
        None
    }
}

/// The position of the first occurrence of `pat` at or after `i`.
pub open spec fn find(s: Seq<u8>, pat: Seq<u8>, i: int) -> Option<int>
    decreases s.len() - i,
    when 0 <= i <= s.len()
{
    if pat.len() == 0 || i + pat.len() > s.len() {
        None
    } else if at(s, i, pat) {
        Some(i)
    } else {
        find(s, pat, i + 1)
    }
}

/// What `find` returns is the first occurrence.
pub proof fn lemma_find_some(s: Seq<u8>, pat: Seq<u8>, i: int, k: int)
    requires
        0 <= i <= s.len(),
        pat.len() > 0,
        find(s, pat, i) == Some(k),
    ensures
        i <= k,
        at(s, k, pat),
        forall|j: int| i <= j < k ==> !at(s, j, pat),
    decreases s.len() - i,
{
    if i + pat.len() > s.len() {
    } else if at(s, i, pat) {
    } else {
        lemma_find_some(s, pat, i + 1, k);
    }
}

/// A known first occurrence determines `find`.
pub proof fn lemma_find_is(s: Seq<u8>, pat: Seq<u8>, i: int, k: int)
    requires
        0 <= i <= k,
        pat.len() > 0,
        at(s, k, pat),
        forall|j: int| i <= j < k ==> !at(s, j, pat),
    ensures
        find(s, pat, i) == Some(k),
    decreases k - i,
{
    assert(k + pat.len() <= s.len());
    if i == k {
    } else {
        assert(!at(s, i, pat));
        lemma_find_is(s, pat, i + 1, k);
    }
}

/// One scan step at position `i`: the raw block found there and the
/// position that follows it. A delimiter opener wins over literal text;
/// otherwise the literal runs to the next `{`, which is looked for only
/// from the second byte so that a lone `{` joins the literal.
pub open spec fn scan_step(s: Seq<u8>, sid: usize, i: int) -> Result<(RawBlock, int), ParseError>
    recommends
        0 <= i < s.len(),
{
    match delim_at(s, i) {
        Some(d) => {
            let op = opener(d).len() as int;
            let lead = i + op < s.len() && s[i + op] == HYPH;
            let j = if lead {
                i + op + 1
            } else {
                i + op
            };
            match find(s, closer(d), j) {
                None => Err(
                    ParseError {
                        kind: ParseErrorKind::Unterminated,
                        src: sid,
                        offset: i as usize,
                    },
                ),
                Some(k) => {
                    let trail = k > j && s[k - 1] == HYPH;
                    let hi0 = if trail {
                        k - 1
                    } else {
                        k
                    };
                    let lo1 = ws_lo(s, j, hi0);
                    let hi1 = ws_hi(s, lo1, hi0);
                    let sp = Span { src: sid, start: lo1 as usize, end: hi1 as usize };
                    let next = k + closer(d).len();
                    match d {
                        Delim::Code => Ok(
                            (RawBlock { lead, trail, block: Block::Code(sp) }, next),
                        ),
                        Delim::Comment => Ok(
                            (RawBlock { lead, trail, block: Block::Comment }, next),
                        ),
                        Delim::Embed => if lo1 == hi1 {
                            Err(
                                ParseError {
                                    kind: ParseErrorKind::EmptyBody,
                                    src: sid,
                                    offset: lo1 as usize,
                                },
                            )
                        } else {
                            Ok((RawBlock { lead, trail, block: Block::Embed(sp) }, next))
                        },
                        _ => if lo1 == hi1 {
                            Err(
                                ParseError {
                                    kind: ParseErrorKind::EmptyBody,
                                    src: sid,
                                    offset: lo1 as usize,
                                },
                            )
                        } else {
                            Ok(
                                (
                                    RawBlock { lead, trail, block: Block::Data(kind_of(d), sp) },
                                    next,
                                ),
                            )
                        },
                    }
                },
            }
        },
        None => {
            let hi = match find(s, seq![LBRACE], i + 1) {
                Some(k) => k,
                None => s.len() as int,
            };
            let sp = Span { src: sid, start: i as usize, end: hi as usize };
            Ok((RawBlock { lead: false, trail: false, block: Block::Literal(sp) }, hi))
        },
    }
}

/// Every successful scan step moves forward and stays inside the text.
pub proof fn lemma_scan_step_advances(s: Seq<u8>, sid: usize, i: int)
    requires
        0 <= i < s.len(),
    ensures
        scan_step(s, sid, i) matches Ok(r) ==> i < r.1 <= s.len(),
{
    match delim_at(s, i) {
        Some(d) => {
            let op = opener(d).len() as int;
            let lead = i + op < s.len() && s[i + op] == HYPH;
            let j = if lead {
                i + op + 1
            } else {
                i + op
            };
            assert(j <= s.len());
            match find(s, closer(d), j) {
                None => {},
                Some(k) => {
                    lemma_find_some(s, closer(d), j, k);
                },
            }
        },
        None => {
            if i + 1 <= s.len() {
                match find(s, seq![LBRACE], i + 1) {
                    Some(k) => {
                        lemma_find_some(s, seq![LBRACE], i + 1, k);
                    },
                    None => {},
                }
            }
        },
    }
}

/// The blocks that one raw block contributes once its trim flags are
/// final: comments vanish, literals are trimmed by their flags and vanish
/// when nothing is left, everything else stands as it is.
pub open spec fn emit(s: Seq<u8>, rb: RawBlock) -> Seq<Block> {
    match rb.block {
        Block::Comment => Seq::empty(),
        Block::Literal(sp) => {
            let lo = if rb.lead {
                ws_lo(s, sp.start as int, sp.end as int)
            } else {
                sp.start as int
            };
            let hi = if rb.trail {
                ws_hi(s, lo, sp.end as int)
            } else {
                sp.end as int
            };
            if lo == hi {
                Seq::empty()
            } else {
                seq![Block::Literal(Span { src: sp.src, start: lo as usize, end: hi as usize })]
            }
        },
        b => seq![b],
    }
}

/// The scan of `s` from position `i` on, with one block buffered: `held`
/// is emitted only once the next block's leading flag is known, the two
/// flags are joined by or, and the joined value stands on both sides.
pub open spec fn scan_from(s: Seq<u8>, sid: usize, i: int, held: Option<RawBlock>) -> Result<
    Seq<Block>,
    ParseError,
>
    decreases s.len() - i,
    when 0 <= i <= s.len()
    via scan_from_dec
{
    if i >= s.len() {
        match held {
            None => Ok(Seq::empty()),
            Some(p) => Ok(emit(s, p)),
        }
    } else {
        match scan_step(s, sid, i) {
            Err(e) => Err(e),
            Ok(r) => {
                let b = r.0;
                let next = r.1;
                match held {
                    None => scan_from(s, sid, next, Some(b)),
                    Some(p) => {
                        let t = p.trail || b.lead;
                        let fixed = RawBlock { lead: p.lead, trail: t, block: p.block };
                        let carried = RawBlock { lead: t, trail: b.trail, block: b.block };
                        match scan_from(s, sid, next, Some(carried)) {
                            Err(e) => Err(e),
                            Ok(rest) => Ok(emit(s, fixed) + rest),
                        }
                    },
                }
            },
        }
    }
}

#[via_fn]
proof fn scan_from_dec(s: Seq<u8>, sid: usize, i: int, held: Option<RawBlock>) {
    if 0 <= i < s.len() {
        lemma_scan_step_advances(s, sid, i);
    }
}

/// The blocks of one template text, in source order, trim resolved.
pub open spec fn scan_spec(s: Seq<u8>, sid: usize) -> Result<Seq<Block>, ParseError> {
    scan_from(s, sid, 0, None)
}

} // verus!

// ---------------------------------------------------------------------------
// Executable scanner
// ---------------------------------------------------------------------------

use crate::source::{ws_hi_exec, ws_lo_exec};

verus! {

/// A block's span lies in source `sid` within a text of `n` bytes.
pub open spec fn block_wf(b: Block, sid: usize, n: int) -> bool {
    match b {
        Block::Literal(sp) => sp.src == sid && sp.wf(n),
        Block::Code(sp) => sp.src == sid && sp.wf(n),
        Block::Data(_, sp) => sp.src == sid && sp.wf(n),
        Block::Embed(sp) => sp.src == sid && sp.wf(n),
        Block::Comment => true,
    }
}

/// Two bytes at `i` are exactly an occurrence of the two-byte pattern.
pub proof fn lemma_at2(s: Seq<u8>, i: int, b0: u8, b1: u8)
    ensures
        at(s, i, seq![b0, b1]) <==> (0 <= i && i + 2 <= s.len() && s[i] == b0 && s[i + 1] == b1),
{
    let pat = seq![b0, b1];
    if 0 <= i && i + 2 <= s.len() && s[i] == b0 && s[i + 1] == b1 {
        assert(s.subrange(i, i + 2) =~= pat);
    }
    if at(s, i, pat) {
        assert(s.subrange(i, i + 2)[0] == s[i]);
        assert(s.subrange(i, i + 2)[1] == s[i + 1]);
    }
}

/// As [`lemma_at2`], for three bytes.
pub proof fn lemma_at3(s: Seq<u8>, i: int, b0: u8, b1: u8, b2: u8)
    ensures
        at(s, i, seq![b0, b1, b2]) <==> (0 <= i && i + 3 <= s.len() && s[i] == b0 && s[i + 1] == b1
            && s[i + 2] == b2),
{
    let pat = seq![b0, b1, b2];
    if 0 <= i && i + 3 <= s.len() && s[i] == b0 && s[i + 1] == b1 && s[i + 2] == b2 {
        assert(s.subrange(i, i + 3) =~= pat);
    }
    if at(s, i, pat) {
        assert(s.subrange(i, i + 3)[0] == s[i]);
        assert(s.subrange(i, i + 3)[1] == s[i + 1]);
        assert(s.subrange(i, i + 3)[2] == s[i + 2]);
    }
}

/// As [`lemma_at2`], for four bytes.
pub proof fn lemma_at4(s: Seq<u8>, i: int, b0: u8, b1: u8, b2: u8, b3: u8)
    ensures
        at(s, i, seq![b0, b1, b2, b3]) <==> (0 <= i && i + 4 <= s.len() && s[i] == b0 && s[i + 1]
            == b1 && s[i + 2] == b2 && s[i + 3] == b3),
{
    let pat = seq![b0, b1, b2, b3];
    if 0 <= i && i + 4 <= s.len() && s[i] == b0 && s[i + 1] == b1 && s[i + 2] == b2 && s[i + 3]
        == b3 {
        assert(s.subrange(i, i + 4) =~= pat);
    }
    if at(s, i, pat) {
        assert(s.subrange(i, i + 4)[0] == s[i]);
        assert(s.subrange(i, i + 4)[1] == s[i + 1]);
        assert(s.subrange(i, i + 4)[2] == s[i + 2]);
        assert(s.subrange(i, i + 4)[3] == s[i + 3]);
    }
}

/// As [`lemma_at2`], for five bytes.
pub proof fn lemma_at5(s: Seq<u8>, i: int, b0: u8, b1: u8, b2: u8, b3: u8, b4: u8)
    ensures
        at(s, i, seq![b0, b1, b2, b3, b4]) <==> (0 <= i && i + 5 <= s.len() && s[i] == b0 && s[i
            + 1] == b1 && s[i + 2] == b2 && s[i + 3] == b3 && s[i + 4] == b4),
{
    let pat = seq![b0, b1, b2, b3, b4];
    if 0 <= i && i + 5 <= s.len() && s[i] == b0 && s[i + 1] == b1 && s[i + 2] == b2 && s[i + 3]
        == b3 && s[i + 4] == b4 {
        assert(s.subrange(i, i + 5) =~= pat);
    }
    if at(s, i, pat) {
        assert(s.subrange(i, i + 5)[0] == s[i]);
        assert(s.subrange(i, i + 5)[1] == s[i + 1]);
        assert(s.subrange(i, i + 5)[2] == s[i + 2]);
        assert(s.subrange(i, i + 5)[3] == s[i + 3]);
        assert(s.subrange(i, i + 5)[4] == s[i + 4]);
    }
}

/// Relate every opener occurrence test at `i` to plain byte comparisons.
pub proof fn lemma_openers_at(s: Seq<u8>, i: int)
    ensures
        at(s, i, opener(Delim::Code)) <==> (0 <= i && i + 2 <= s.len() && s[i] == LBRACE && s[i
            + 1] == PCT),
        at(s, i, opener(Delim::Comment)) <==> (0 <= i && i + 2 <= s.len() && s[i] == LBRACE && s[i
            + 1] == HASH),
        at(s, i, opener(Delim::Embed)) <==> (0 <= i && i + 2 <= s.len() && s[i] == LBRACE && s[i
            + 1] == LT),
        at(s, i, opener(Delim::Escaped)) <==> (0 <= i && i + 2 <= s.len() && s[i] == LBRACE && s[i
            + 1] == LBRACE),
        at(s, i, opener(Delim::Raw)) <==> (0 <= i && i + 3 <= s.len() && s[i] == LBRACE && s[i + 1]
            == LBRACE && s[i + 2] == LBRACE),
        at(s, i, opener(Delim::Debug)) <==> (0 <= i && i + 4 <= s.len() && s[i] == LBRACE && s[i
            + 1] == LBRACE && s[i + 2] == LBRACE && s[i + 3] == LBRACE),
        at(s, i, opener(Delim::Verbose)) <==> (0 <= i && i + 5 <= s.len() && s[i] == LBRACE && s[i
            + 1] == LBRACE && s[i + 2] == LBRACE && s[i + 3] == LBRACE && s[i + 4] == LBRACE),
{
    lemma_at2(s, i, LBRACE, PCT);
    lemma_at2(s, i, LBRACE, HASH);
    lemma_at2(s, i, LBRACE, LT);
    lemma_at2(s, i, LBRACE, LBRACE);
    lemma_at3(s, i, LBRACE, LBRACE, LBRACE);
    lemma_at4(s, i, LBRACE, LBRACE, LBRACE, LBRACE);
    lemma_at5(s, i, LBRACE, LBRACE, LBRACE, LBRACE, LBRACE);
}

/// The delimiter family, if any, whose opener stands at `i`.
fn delim_at_exec(s: &[u8], i: usize) -> (r: Option<Delim>)
    requires
        i < s@.len(),
    ensures
        r == delim_at(s@, i as int),
{
    proof {
        lemma_openers_at(s@, i as int);
    }
    let len = s.len();
    if s[i] != LBRACE {
        return None;
    }
    if i + 1 >= len {
        return None;
    }
    let b1 = s[i + 1];
    if b1 == LBRACE {
        let mut n: usize = 2;
        if i + 2 < len && s[i + 2] == LBRACE {
            n = 3;
            if i + 3 < len && s[i + 3] == LBRACE {
                n = 4;
                if i + 4 < len && s[i + 4] == LBRACE {
                    n = 5;
                }
            }
        }
        if n == 5 {
            Some(Delim::Verbose)
        } else if n == 4 {
            Some(Delim::Debug)
        } else if n == 3 {
            Some(Delim::Raw)
        } else {
            Some(Delim::Escaped)
        }
    } else if b1 == PCT {
        Some(Delim::Code)
    } else if b1 == HASH {
        Some(Delim::Comment)
    } else if b1 == LT {
        Some(Delim::Embed)
    } else {
        None
    }
}

/// The byte length of a family's opener.
fn opener_len(d: Delim) -> (r: usize)
    ensures
        r == opener(d).len(),
{
    match d {
        Delim::Code => 2,
        Delim::Comment => 2,
        Delim::Embed => 2,
        Delim::Verbose => 5,
        Delim::Debug => 4,
        Delim::Raw => 3,
        Delim::Escaped => 2,
    }
}

/// The byte length of a family's closer.
fn closer_len(d: Delim) -> (r: usize)
    ensures
        r == closer(d).len(),
{
    match d {
        Delim::Code => 2,
        Delim::Comment => 2,
        Delim::Embed => 2,
        Delim::Verbose => 5,
        Delim::Debug => 4,
        Delim::Raw => 3,
        Delim::Escaped => 2,
    }
}

/// Whether the closer of family `d` stands at `k`.
fn closer_at_exec(s: &[u8], d: Delim, k: usize) -> (r: bool)
    requires
        k <= s@.len(),
    ensures
        r == at(s@, k as int, closer(d)),
{
    let len = s.len();
    match d {
        Delim::Code => {
            proof {
                lemma_at2(s@, k as int, PCT, RBRACE);
            }
            len - k >= 2 && s[k] == PCT && s[k + 1] == RBRACE
        },
        Delim::Comment => {
            proof {
                lemma_at2(s@, k as int, HASH, RBRACE);
            }
            len - k >= 2 && s[k] == HASH && s[k + 1] == RBRACE
        },
        Delim::Embed => {
            proof {
                lemma_at2(s@, k as int, GT, RBRACE);
            }
            len - k >= 2 && s[k] == GT && s[k + 1] == RBRACE
        },
        Delim::Escaped => {
            proof {
                lemma_at2(s@, k as int, RBRACE, RBRACE);
            }
            len - k >= 2 && s[k] == RBRACE && s[k + 1] == RBRACE
        },
        Delim::Raw => {
            proof {
                lemma_at3(s@, k as int, RBRACE, RBRACE, RBRACE);
            }
            len - k >= 3 && s[k] == RBRACE && s[k + 1] == RBRACE && s[k + 2] == RBRACE
        },
        Delim::Debug => {
            proof {
                lemma_at4(s@, k as int, RBRACE, RBRACE, RBRACE, RBRACE);
            }
            len - k >= 4 && s[k] == RBRACE && s[k + 1] == RBRACE && s[k + 2] == RBRACE && s[k + 3]
                == RBRACE
        },
        Delim::Verbose => {
            proof {
                lemma_at5(s@, k as int, RBRACE, RBRACE, RBRACE, RBRACE, RBRACE);
            }
            len - k >= 5 && s[k] == RBRACE && s[k + 1] == RBRACE && s[k + 2] == RBRACE && s[k + 3]
                == RBRACE && s[k + 4] == RBRACE
        },
    }
}

/// No occurrence anywhere means `find` fails.
pub proof fn lemma_find_is_none(s: Seq<u8>, pat: Seq<u8>, i: int)
    requires
        0 <= i <= s.len(),
        pat.len() > 0,
        forall|j: int| i <= j ==> !at(s, j, pat),
    ensures
        find(s, pat, i) is None,
    decreases s.len() - i,
{
    if pat.len() == 0 || i + pat.len() > s.len() {
    } else {
        lemma_find_is_none(s, pat, i + 1);
    }
}

/// First occurrence of family `d`'s closer at or after `from`.
fn find_closer(s: &[u8], d: Delim, from: usize) -> (r: Option<usize>)
    requires
        from <= s@.len(),
    ensures
        match r {
            Some(k) => find(s@, closer(d), from as int) == Some(k as int) && from <= k && k
                + closer(d).len() <= s@.len(),
            None => find(s@, closer(d), from as int) is None,
        },
{
    let len = s.len();
    let cl = closer_len(d);
    let mut k: usize = from;
    while len - k >= cl
        invariant
            from <= k <= len,
            len == s@.len(),
            cl == closer(d).len(),
            forall|j: int| from <= j < k ==> !at(s@, j, closer(d)),
        decreases len - k,
    {
        if closer_at_exec(s, d, k) {
            proof {
                lemma_find_is(s@, closer(d), from as int, k as int);
            }
            return Some(k);
        }
        k = k + 1;
    }
    proof {
        assert forall|j: int| from <= j implies !at(s@, j, closer(d)) by {
            if j + closer(d).len() > s@.len() {
            } else {
                assert(j < k);
            }
        }
        lemma_find_is_none(s@, closer(d), from as int);
    }
    None
}

/// First `{` at or after `from`.
fn find_lbrace(s: &[u8], from: usize) -> (r: Option<usize>)
    requires
        from <= s@.len(),
    ensures
        match r {
            Some(k) => find(s@, seq![LBRACE], from as int) == Some(k as int) && from <= k && k
                < s@.len(),
            None => find(s@, seq![LBRACE], from as int) is None,
        },
{
    let len = s.len();
    let mut k: usize = from;
    while k < len
        invariant
            from <= k <= len,
            len == s@.len(),
            forall|j: int| from <= j < k ==> !at(s@, j, seq![LBRACE]),
        decreases len - k,
    {
        proof {
            lemma_at1(s@, k as int, LBRACE);
        }
        if s[k] == LBRACE {
            proof {
                lemma_find_is(s@, seq![LBRACE], from as int, k as int);
            }
            return Some(k);
        }
        k = k + 1;
    }
    proof {
        assert forall|j: int| from <= j implies !at(s@, j, seq![LBRACE]) by {
            if j < s@.len() {
                lemma_at1(s@, j, LBRACE);
            }
        }
        lemma_find_is_none(s@, seq![LBRACE], from as int);
    }
    None
}

/// One byte at `i` is exactly an occurrence of the one-byte pattern.
pub proof fn lemma_at1(s: Seq<u8>, i: int, b0: u8)
    ensures
        at(s, i, seq![b0]) <==> (0 <= i && i + 1 <= s.len() && s[i] == b0),
{
    let pat = seq![b0];
    if 0 <= i && i + 1 <= s.len() && s[i] == b0 {
        assert(s.subrange(i, i + 1) =~= pat);
    }
    if at(s, i, pat) {
        assert(s.subrange(i, i + 1)[0] == s[i]);
    }
}

} // verus!

verus! {

/// The raw block's span, if any, lies in source `sid` within `n` bytes.
pub open spec fn raw_wf(rb: RawBlock, sid: usize, n: int) -> bool {
    block_wf(rb.block, sid, n)
}

/// One executable scan step: the raw block at `i` and the position after
/// it.
fn scan_step_exec(s: &[u8], sid: usize, i: usize) -> (r: Result<(RawBlock, usize), ParseError>)
    requires
        i < s@.len(),
    ensures
        match r {
            Ok(p) => scan_step(s@, sid, i as int) == Ok::<(RawBlock, int), ParseError>(
                (p.0, p.1 as int),
            ) && i < p.1 <= s@.len() && raw_wf(p.0, sid, s@.len() as int),
            Err(e) => scan_step(s@, sid, i as int) == Err::<(RawBlock, int), ParseError>(e),
        },
{
    let len = s.len();
    match delim_at_exec(s, i) {
        Some(d) => {
            let op = opener_len(d);
            proof {
                assert(at(s@, i as int, opener(d)));
                assert(i + op <= len);
            }
            let lead = len - i > op && s[i + op] == HYPH;
            let j = if lead {
                i + op + 1
            } else {
                i + op
            };
            proof {
                assert(j <= len);
            }
            match find_closer(s, d, j) {
                None => Err(ParseError { kind: ParseErrorKind::Unterminated, src: sid, offset: i }),
                Some(k) => {
                    proof {
                        lemma_find_some(s@, closer(d), j as int, k as int);
                    }
                    let trail = k > j && s[k - 1] == HYPH;
                    let hi0 = if trail {
                        k - 1
                    } else {
                        k
                    };
                    let lo1 = ws_lo_exec(s, j, hi0);
                    let hi1 = ws_hi_exec(s, lo1, hi0);
                    let sp = Span { src: sid, start: lo1, end: hi1 };
                    let cl = closer_len(d);
                    let next = k + cl;
                    match d {
                        Delim::Code => Ok((RawBlock { lead, trail, block: Block::Code(sp) }, next)),
                        Delim::Comment => Ok(
                            (RawBlock { lead, trail, block: Block::Comment }, next),
                        ),
                        Delim::Embed => {
                            if lo1 == hi1 {
                                Err(
                                    ParseError {
                                        kind: ParseErrorKind::EmptyBody,
                                        src: sid,
                                        offset: lo1,
                                    },
                                )
                            } else {
                                Ok((RawBlock { lead, trail, block: Block::Embed(sp) }, next))
                            }
                        },
                        Delim::Verbose => {
                            if lo1 == hi1 {
                                Err(
                                    ParseError {
                                        kind: ParseErrorKind::EmptyBody,
                                        src: sid,
                                        offset: lo1,
                                    },
                                )
                            } else {
                                Ok(
                                    (
                                        RawBlock {
                                            lead,
                                            trail,
                                            block: Block::Data(DataKind::Verbose, sp),
                                        },
                                        next,
                                    ),
                                )
                            }
                        },
                        Delim::Debug => {
                            if lo1 == hi1 {
                                Err(
                                    ParseError {
                                        kind: ParseErrorKind::EmptyBody,
                                        src: sid,
                                        offset: lo1,
                                    },
                                )
                            } else {
                                Ok(
                                    (
                                        RawBlock {
                                            lead,
                                            trail,
                                            block: Block::Data(DataKind::Debug, sp),
                                        },
                                        next,
                                    ),
                                )
                            }
                        },
                        Delim::Raw => {
                            if lo1 == hi1 {
                                Err(
                                    ParseError {
                                        kind: ParseErrorKind::EmptyBody,
                                        src: sid,
                                        offset: lo1,
                                    },
                                )
                            } else {
                                Ok(
                                    (
                                        RawBlock { lead, trail, block: Block::Data(DataKind::Raw, sp) },
                                        next,
                                    ),
                                )
                            }
                        },
                        Delim::Escaped => {
                            if lo1 == hi1 {
                                Err(
                                    ParseError {
                                        kind: ParseErrorKind::EmptyBody,
                                        src: sid,
                                        offset: lo1,
                                    },
                                )
                            } else {
                                Ok(
                                    (
                                        RawBlock {
                                            lead,
                                            trail,
                                            block: Block::Data(DataKind::Escaped, sp),
                                        },
                                        next,
                                    ),
                                )
                            }
                        },
                    }
                },
            }
        },
        None => {
            let hi = match find_lbrace(s, i + 1) {
                Some(k) => k,
                None => len,
            };
            let sp = Span { src: sid, start: i, end: hi };
            Ok((RawBlock { lead: false, trail: false, block: Block::Literal(sp) }, hi))
        },
    }
}

/// Append what one finalized raw block contributes.
fn emit_into(out: &mut Vec<Block>, s: &[u8], rb: RawBlock, Ghost(sid): Ghost<usize>)
    requires
        raw_wf(rb, sid, s@.len() as int),
        forall|k: int| 0 <= k < old(out)@.len() ==> block_wf(#[trigger] old(out)@[k], sid, s@.len() as int),
    ensures
        final(out)@ == old(out)@ + emit(s@, rb),
        forall|k: int| 0 <= k < final(out)@.len() ==> block_wf(#[trigger] final(out)@[k], sid, s@.len() as int),
{
    match rb.block {
        Block::Comment => {
            assert(out@ =~= old(out)@ + emit(s@, rb));
        },
        Block::Literal(sp) => {
            let lo = if rb.lead {
                ws_lo_exec(s, sp.start, sp.end)
            } else {
                sp.start
            };
            let hi = if rb.trail {
                ws_hi_exec(s, lo, sp.end)
            } else {
                sp.end
            };
            if lo != hi {
                out.push(Block::Literal(Span { src: sp.src, start: lo, end: hi }));
                assert(out@ =~= old(out)@ + emit(s@, rb));
            } else {
                assert(out@ =~= old(out)@ + emit(s@, rb));
            }
        },
        b => {
            out.push(b);
            assert(out@ =~= old(out)@ + emit(s@, rb));
        },
    }
}

/// Scan one template text into its blocks.
///
/// The result equals the specification scan: blocks in source order, the
/// trim markers of neighbouring blocks joined by or and applied to the
/// literals, comments and emptied literals dropped. Exactly one block is
/// buffered at any time while scanning.
pub fn scan(text: &[u8], sid: usize) -> (r: Result<Vec<Block>, ParseError>)
    ensures
        match r {
            Ok(v) => scan_spec(text@, sid) == Ok::<Seq<Block>, ParseError>(v@) && forall|k: int|
                0 <= k < v@.len() ==> block_wf(#[trigger] v@[k], sid, text@.len() as int),
            Err(e) => scan_spec(text@, sid) == Err::<Seq<Block>, ParseError>(e),
        },
{
    let len = text.len();
    let mut out: Vec<Block> = Vec::new();
    let mut held: Option<RawBlock> = None;
    let mut i: usize = 0;
    while i < len
        invariant
            i <= len,
            len == text@.len(),
            held matches Some(p) ==> raw_wf(p, sid, len as int),
            forall|k: int| 0 <= k < out@.len() ==> block_wf(#[trigger] out@[k], sid, len as int),
            forall|rest: Seq<Block>|
                scan_from(text@, sid, i as int, held) == Ok::<Seq<Block>, ParseError>(rest)
                    ==> scan_spec(text@, sid) == Ok::<Seq<Block>, ParseError>(out@ + rest),
            forall|e: ParseError|
                scan_from(text@, sid, i as int, held) == Err::<Seq<Block>, ParseError>(e)
                    ==> scan_spec(text@, sid) == Err::<Seq<Block>, ParseError>(e),
        decreases len - i,
    {
        match scan_step_exec(text, sid, i) {
            Err(e) => {
                proof {
                    assert(scan_from(text@, sid, i as int, held) == Err::<
                        Seq<Block>,
                        ParseError,
                    >(e));
                }
                return Err(e);
            },
            Ok((b, next)) => {
                match held {
                    None => {
                        proof {
                            assert(scan_from(text@, sid, i as int, held) == scan_from(
                                text@,
                                sid,
                                next as int,
                                Some(b),
                            ));
                        }
                        held = Some(b);
                    },
                    Some(p) => {
                        let t = p.trail || b.lead;
                        let fixed = RawBlock { lead: p.lead, trail: t, block: p.block };
                        let carried = RawBlock { lead: t, trail: b.trail, block: b.block };
                        let ghost out0 = out@;
                        emit_into(&mut out, text, fixed, Ghost(sid));
                        proof {
                            assert forall|rest: Seq<Block>|
                                scan_from(text@, sid, next as int, Some(carried)) == Ok::<
                                    Seq<Block>,
                                    ParseError,
                                >(rest) implies scan_spec(text@, sid) == Ok::<
                                Seq<Block>,
                                ParseError,
                            >(out@ + rest) by {
                                assert(scan_from(text@, sid, i as int, Some(p)) == Ok::<
                                    Seq<Block>,
                                    ParseError,
                                >(emit(text@, fixed) + rest));
                                assert(out0 + (emit(text@, fixed) + rest) =~= out@ + rest);
                            }
                        }
                        held = Some(carried);
                    },
                }
                i = next;
            },
        }
    }
    match held {
        None => {
            proof {
                assert(scan_from(text@, sid, i as int, held) == Ok::<Seq<Block>, ParseError>(
                    Seq::empty(),
                ));
                assert(out@ + Seq::<Block>::empty() =~= out@);
            }
            Ok(out)
        },
        Some(p) => {
            let ghost out0 = out@;
            emit_into(&mut out, text, p, Ghost(sid));
            proof {
                assert(scan_from(text@, sid, i as int, held) == Ok::<Seq<Block>, ParseError>(
                    emit(text@, p),
                ));
                assert(out0 + emit(text@, p) =~= out@);
            }
            Ok(out)
        },
    }
}

} // verus!

verus! {

/// The invariant of scanned blocks: literals, data and embed blocks are
/// never empty once trimming is resolved, and comments are gone; only
/// code blocks may be empty.
pub open spec fn block_inv(b: Block) -> bool {
    match b {
        Block::Literal(sp) => sp.start < sp.end,
        Block::Data(_, sp) => sp.start < sp.end,
        Block::Embed(sp) => sp.start < sp.end,
        Block::Code(_) => true,
        Block::Comment => false,
    }
}

/// What must hold of a block still waiting for its trim resolution: its
/// data or embed body is already known non-empty; a comment may still be
/// buffered, and a literal may still shrink.
pub open spec fn raw_inv(rb: RawBlock) -> bool {
    match rb.block {
        Block::Data(_, sp) => sp.start < sp.end,
        Block::Embed(sp) => sp.start < sp.end,
        _ => true,
    }
}

proof fn lemma_scan_step_inv(s: Seq<u8>, sid: usize, i: int)
    requires
        0 <= i < s.len() <= usize::MAX,
    ensures
        scan_step(s, sid, i) matches Ok(r) ==> raw_inv(r.0) && raw_wf(r.0, sid, s.len() as int),
{
    match delim_at(s, i) {
        Some(d) => {
            let op = opener(d).len() as int;
            let lead = i + op < s.len() && s[i + op] == HYPH;
            let j = if lead {
                i + op + 1
            } else {
                i + op
            };
            assert(j <= s.len());
            match find(s, closer(d), j) {
                None => {},
                Some(k) => {
                    lemma_find_some(s, closer(d), j, k);
                    let trail = k > j && s[k - 1] == HYPH;
                    let hi0 = if trail {
                        k - 1
                    } else {
                        k
                    };
                    crate::source::lemma_ws_lo_bounds(s, j, hi0);
                    crate::source::lemma_ws_hi_bounds(s, ws_lo(s, j, hi0), hi0);
                },
            }
        },
        None => {
            match find(s, seq![LBRACE], i + 1) {
                Some(k) => {
                    lemma_find_some(s, seq![LBRACE], i + 1, k);
                },
                None => {},
            }
        },
    }
}

proof fn lemma_scan_from_inv(s: Seq<u8>, sid: usize, i: int, held: Option<RawBlock>)
    requires
        0 <= i <= s.len() <= usize::MAX,
        held matches Some(p) ==> raw_inv(p) && raw_wf(p, sid, s.len() as int),
    ensures
        scan_from(s, sid, i, held) matches Ok(bs) ==> forall|k: int|
            0 <= k < bs.len() ==> block_inv(#[trigger] bs[k]),
    decreases s.len() - i,
{
    if i >= s.len() {
        match held {
            None => {},
            Some(p) => {
                lemma_emit_inv(s, sid, p);
            },
        }
    } else {
        lemma_scan_step_advances(s, sid, i);
        lemma_scan_step_inv(s, sid, i);
        match scan_step(s, sid, i) {
            Err(_) => {},
            Ok(r) => {
                let b = r.0;
                let next = r.1;
                match held {
                    None => {
                        lemma_scan_from_inv(s, sid, next, Some(b));
                    },
                    Some(p) => {
                        let t = p.trail || b.lead;
                        let fixed = RawBlock { lead: p.lead, trail: t, block: p.block };
                        let carried = RawBlock { lead: t, trail: b.trail, block: b.block };
                        lemma_scan_from_inv(s, sid, next, Some(carried));
                        lemma_emit_inv(s, sid, fixed);
                        match scan_from(s, sid, next, Some(carried)) {
                            Err(_) => {},
                            Ok(rest) => {
                                let head = emit(s, fixed);
                                assert forall|k: int| 0 <= k < (head + rest).len() implies block_inv(
                                    #[trigger] (head + rest)[k],
                                ) by {
                                    if k < head.len() {
                                        assert((head + rest)[k] == head[k]);
                                    } else {
                                        assert((head + rest)[k] == rest[k - head.len()]);
                                    }
                                }
                            },
                        }
                    },
                }
            },
        }
    }
}

proof fn lemma_emit_inv(s: Seq<u8>, sid: usize, rb: RawBlock)
    requires
        raw_inv(rb),
        raw_wf(rb, sid, s.len() as int),
        s.len() <= usize::MAX,
    ensures
        forall|k: int| 0 <= k < emit(s, rb).len() ==> block_inv(#[trigger] emit(s, rb)[k]),
{
    match rb.block {
        Block::Literal(sp) => {
            let lo = if rb.lead {
                ws_lo(s, sp.start as int, sp.end as int)
            } else {
                sp.start as int
            };
            crate::source::lemma_ws_lo_bounds(s, sp.start as int, sp.end as int);
            crate::source::lemma_ws_hi_bounds(s, lo, sp.end as int);
        },
        _ => {},
    }
}

/// The scanner's output keeps the block invariant: no comments, and no
/// empty literal, data or embed blocks.
pub proof fn lemma_scan_invariant(s: Seq<u8>, sid: usize)
    requires
        s.len() <= usize::MAX,
    ensures
        scan_spec(s, sid) matches Ok(bs) ==> forall|k: int|
            0 <= k < bs.len() ==> block_inv(#[trigger] bs[k]),
{
    lemma_scan_from_inv(s, sid, 0, None);
}

} // verus!
