//! Laws of the scanner: delimiter disambiguation and the correctness of
//! whitespace trimming around a code block.

use vstd::prelude::*;

use crate::chars::{is_ws, HYPH, LBRACE, PCT, RBRACE};
use crate::scan::{
    at, closer, delim_at, emit, find, kind_of, lemma_at1, lemma_at2, lemma_find_is,
    lemma_openers_at, opener, scan_from, scan_spec, scan_step, Block, DataKind, Delim, ParseError,
    RawBlock,
};
use crate::source::{
    lemma_ws_hi_bounds, lemma_ws_hi_gt_nonws, lemma_ws_lo_bounds, lemma_ws_lo_le_nonws, ws_hi,
    ws_lo, Span,
};

verus! {

/// The delimiter family of a data kind.
pub open spec fn delim_of(k: DataKind) -> Delim {
    match k {
        DataKind::Raw => Delim::Raw,
        DataKind::Escaped => Delim::Escaped,
        DataKind::Debug => Delim::Debug,
        DataKind::Verbose => Delim::Verbose,
    }
}

/// Delimiter disambiguation: a whole text of the shape `open x close`,
/// for any of the four data families and any body `x` free of braces and
/// hyphens with something other than whitespace in it, scans as exactly
/// one data block of that family — never as nested shorter delimiters —
/// whose span is the trimmed body.
pub proof fn lemma_delimiter_disambiguation(k: DataKind, x: Seq<u8>, sid: usize)
    requires
        x.len() > 0,
        forall|i: int|
            0 <= i < x.len() ==> #[trigger] x[i] != LBRACE && x[i] != RBRACE && x[i] != HYPH,
        exists|q: int| 0 <= q < x.len() && !is_ws(#[trigger] x[q]),
        opener(delim_of(k)).len() + x.len() + closer(delim_of(k)).len() <= usize::MAX,
    ensures
        ({
            let d = delim_of(k);
            let s = opener(d) + x + closer(d);
            let n = opener(d).len() as int;
            let lo = ws_lo(s, n, n + x.len());
            let hi = ws_hi(s, lo, n + x.len());
            scan_spec(s, sid) == Ok::<Seq<Block>, ParseError>(
                seq![
                    Block::Data(k, Span { src: sid, start: lo as usize, end: hi as usize }),
                ],
            )
        }),
{
    let d = delim_of(k);
    let s = opener(d) + x + closer(d);
    let n = opener(d).len() as int;
    let cl = closer(d).len() as int;
    let m = n + x.len() as int;
    let len = s.len() as int;
    assert(len == n + x.len() + cl);
    assert(opener(d).len() == closer(d).len());

    assert forall|i: int| 0 <= i < n implies s[i] == LBRACE by {
        assert(s[i] == opener(d)[i]);
    }
    assert forall|i: int| n <= i < m implies s[i] == x[i - n] by {}
    assert forall|i: int| m <= i < len implies s[i] == RBRACE by {
        assert(s[i] == closer(d)[i - m]);
    }

    lemma_openers_at(s, 0);
    assert(delim_at(s, 0) == Some(d)) by {
        assert(x[0] != LBRACE);
        assert(s[n] == x[0]);
        match k {
            DataKind::Raw => {
                assert(!at(s, 0, opener(Delim::Verbose)));
                assert(!at(s, 0, opener(Delim::Debug)));
                assert(at(s, 0, opener(Delim::Raw)));
            },
            DataKind::Escaped => {
                assert(!at(s, 0, opener(Delim::Verbose)));
                assert(!at(s, 0, opener(Delim::Debug)));
                assert(!at(s, 0, opener(Delim::Raw)));
                assert(at(s, 0, opener(Delim::Escaped)));
            },
            DataKind::Debug => {
                assert(!at(s, 0, opener(Delim::Verbose)));
                assert(at(s, 0, opener(Delim::Debug)));
            },
            DataKind::Verbose => {
                assert(at(s, 0, opener(Delim::Verbose)));
            },
        }
    }

    // No leading trim marker: the body's first byte is not a hyphen.
    assert(s[n] == x[0] && x[0] != HYPH);

    // The closer's first occurrence is right after the body.
    assert(closer(d)[0] == RBRACE);
    assert(at(s, m, closer(d))) by {
        assert(s.subrange(m, m + cl) =~= closer(d));
    }
    assert forall|p: int| n <= p < m implies !at(s, p, closer(d)) by {
        if at(s, p, closer(d)) {
            assert(s.subrange(p, p + cl)[0] == s[p]);
            assert(s[p] == x[p - n]);
        }
    }
    lemma_find_is(s, closer(d), n, m);

    // No trailing trim marker: the body's last byte is not a hyphen.
    assert(s[m - 1] == x[x.len() - 1] && x[x.len() - 1] != HYPH);

    let lo = ws_lo(s, n, m);
    let hi = ws_hi(s, lo, m);
    let q = choose|q: int| 0 <= q < x.len() && !is_ws(#[trigger] x[q]);
    assert(s[n + q] == x[q]);
    lemma_ws_lo_le_nonws(s, n, m, n + q);
    lemma_ws_lo_bounds(s, n, m);
    lemma_ws_hi_gt_nonws(s, lo, m, n + q);
    lemma_ws_hi_bounds(s, lo, m);
    assert(lo < hi);

    let sp = Span { src: sid, start: lo as usize, end: hi as usize };
    let b = RawBlock { lead: false, trail: false, block: Block::Data(kind_of(d), sp) };
    assert(kind_of(d) == k);
    assert(scan_step(s, sid, 0) == Ok::<(RawBlock, int), ParseError>((b, len)));
    assert(scan_from(s, sid, len, Some(b)) == Ok::<Seq<Block>, ParseError>(emit(s, b)));
    assert(emit(s, b) =~= seq![Block::Data(k, sp)]);
    assert(scan_spec(s, sid) == scan_from(s, sid, len, Some(b)));
}

/// Trim correctness with both markers: in `A {%- c -%} B` the whitespace
/// at the end of `A` and at the start of `B` is removed, and the code
/// body is kept trimmed.
pub proof fn lemma_trim_code_block(a: Seq<u8>, c: Seq<u8>, b: Seq<u8>, sid: usize)
    requires
        a.len() > 0,
        b.len() > 0,
        forall|i: int| 0 <= i < a.len() ==> #[trigger] a[i] != LBRACE,
        exists|p: int| 0 <= p < a.len() && !is_ws(#[trigger] a[p]),
        forall|i: int| 0 <= i < b.len() ==> #[trigger] b[i] != LBRACE,
        exists|p: int| 0 <= p < b.len() && !is_ws(#[trigger] b[p]),
        forall|i: int| 0 <= i < c.len() ==> #[trigger] c[i] != PCT,
        a.len() + c.len() + b.len() + 6 <= usize::MAX,
    ensures
        ({
            let s = a + seq![LBRACE, PCT, HYPH] + c + seq![HYPH, PCT, RBRACE] + b;
            let na = a.len() as int;
            let j = na + 3;
            let k = j + c.len() + 1;
            let nb = k + 2;
            let len = s.len() as int;
            let ha = ws_hi(s, 0, na);
            let lc = ws_lo(s, j, j + c.len());
            let hc = ws_hi(s, lc, j + c.len());
            let lb = ws_lo(s, nb, len);
            scan_spec(s, sid) == Ok::<Seq<Block>, ParseError>(
                seq![
                    Block::Literal(Span { src: sid, start: 0 as usize, end: ha as usize }),
                    Block::Code(Span { src: sid, start: lc as usize, end: hc as usize }),
                    Block::Literal(Span { src: sid, start: lb as usize, end: len as usize }),
                ],
            )
        }),
{
    let s = a + seq![LBRACE, PCT, HYPH] + c + seq![HYPH, PCT, RBRACE] + b;
    let na = a.len() as int;
    let j = na + 3;
    let k = j + c.len() + 1;
    let nb = k + 2;
    let len = s.len() as int;
    assert(len == nb + b.len());

    assert forall|i: int| 0 <= i < na implies s[i] == a[i] by {}
    assert(s[na] == LBRACE && s[na + 1] == PCT && s[na + 2] == HYPH);
    assert forall|i: int| j <= i < j + c.len() implies s[i] == c[i - j] by {}
    assert(s[k - 1] == HYPH && s[k] == PCT && s[k + 1] == RBRACE);
    assert forall|i: int| nb <= i < len implies s[i] == b[i - nb] by {}

    // Step one: the literal `A`, up to the first `{`.
    assert(delim_at(s, 0) is None) by {
        lemma_openers_at(s, 0);
        assert(s[0] == a[0] && a[0] != LBRACE);
    }
    assert(find(s, seq![LBRACE], 1) == Some(na)) by {
        lemma_at1(s, na, LBRACE);
        assert forall|p: int| 1 <= p < na implies !at(s, p, seq![LBRACE]) by {
            lemma_at1(s, p, LBRACE);
            assert(s[p] == a[p]);
        }
        lemma_find_is(s, seq![LBRACE], 1, na);
    }
    let lit_a = RawBlock {
        lead: false,
        trail: false,
        block: Block::Literal(Span { src: sid, start: 0 as usize, end: na as usize }),
    };
    assert(scan_step(s, sid, 0) == Ok::<(RawBlock, int), ParseError>((lit_a, na)));

    // Step two: the code block with both trim markers.
    assert(delim_at(s, na) == Some(Delim::Code)) by {
        lemma_openers_at(s, na);
    }
    assert(find(s, closer(Delim::Code), j) == Some(k)) by {
        lemma_at2(s, k, PCT, RBRACE);
        assert forall|p: int| j <= p < k implies !at(s, p, closer(Delim::Code)) by {
            lemma_at2(s, p, PCT, RBRACE);
            if p < j + c.len() {
                assert(s[p] == c[p - j]);
            } else {
                assert(s[p] == HYPH);
            }
        }
        lemma_find_is(s, closer(Delim::Code), j, k);
    }
    let lc = ws_lo(s, j, k - 1);
    let hc = ws_hi(s, lc, k - 1);
    lemma_ws_lo_bounds(s, j, k - 1);
    lemma_ws_hi_bounds(s, lc, k - 1);
    let code_b = RawBlock {
        lead: true,
        trail: true,
        block: Block::Code(Span { src: sid, start: lc as usize, end: hc as usize }),
    };
    assert(s[j] == if c.len() > 0 {
        c[0]
    } else {
        HYPH
    });
    assert(scan_step(s, sid, na) == Ok::<(RawBlock, int), ParseError>((code_b, nb)));

    // Step three: the literal `B`, to the end of the text.
    assert(delim_at(s, nb) is None) by {
        lemma_openers_at(s, nb);
        assert(s[nb] == b[0] && b[0] != LBRACE);
    }
    assert(find(s, seq![LBRACE], nb + 1) is None) by {
        assert forall|p: int| nb + 1 <= p implies !at(s, p, seq![LBRACE]) by {
            lemma_at1(s, p, LBRACE);
            if p < len {
                assert(s[p] == b[p - nb]);
            }
        }
        crate::scan::lemma_find_is_none(s, seq![LBRACE], nb + 1);
    }
    let lit_b = RawBlock {
        lead: false,
        trail: false,
        block: Block::Literal(Span { src: sid, start: nb as usize, end: len as usize }),
    };
    assert(scan_step(s, sid, nb) == Ok::<(RawBlock, int), ParseError>((lit_b, len)));

    // Resolve the flags: the code block's markers reach both literals.
    let lit_a2 = RawBlock { lead: false, trail: true, block: lit_a.block };
    let code_b2 = RawBlock { lead: true, trail: true, block: code_b.block };
    let lit_b2 = RawBlock { lead: true, trail: false, block: lit_b.block };
    let ha = ws_hi(s, 0, na);
    let pa = choose|p: int| 0 <= p < a.len() && !is_ws(#[trigger] a[p]);
    assert(s[pa] == a[pa]);
    lemma_ws_hi_gt_nonws(s, 0, na, pa);
    lemma_ws_hi_bounds(s, 0, na);
    assert(emit(s, lit_a2) =~= seq![
        Block::Literal(Span { src: sid, start: 0 as usize, end: ha as usize }),
    ]);
    assert(emit(s, code_b2) =~= seq![code_b.block]);
    let lb = ws_lo(s, nb, len);
    let pb = choose|p: int| 0 <= p < b.len() && !is_ws(#[trigger] b[p]);
    assert(s[nb + pb] == b[pb]);
    lemma_ws_lo_le_nonws(s, nb, len, nb + pb);
    lemma_ws_lo_bounds(s, nb, len);
    assert(emit(s, lit_b2) =~= seq![
        Block::Literal(Span { src: sid, start: lb as usize, end: len as usize }),
    ]);

    assert(scan_from(s, sid, len, Some(lit_b2)) == Ok::<Seq<Block>, ParseError>(emit(s, lit_b2)));
    assert(scan_from(s, sid, nb, Some(code_b)) == Ok::<Seq<Block>, ParseError>(
        emit(s, code_b2) + emit(s, lit_b2),
    ));
    assert(scan_from(s, sid, na, Some(lit_a)) == Ok::<Seq<Block>, ParseError>(
        emit(s, lit_a2) + (emit(s, code_b2) + emit(s, lit_b2)),
    ));
    assert(scan_spec(s, sid) == scan_from(s, sid, na, Some(lit_a)));
    assert(emit(s, lit_a2) + (emit(s, code_b2) + emit(s, lit_b2)) =~= seq![
        Block::Literal(Span { src: sid, start: 0 as usize, end: ha as usize }),
        Block::Code(Span { src: sid, start: lc as usize, end: hc as usize }),
        Block::Literal(Span { src: sid, start: lb as usize, end: len as usize }),
    ]);
}

/// Omitting the closing trim marker preserves the whitespace after the
/// code block: in `A {%- c %} B` the text `B` stands untouched.
pub proof fn lemma_no_trim_keeps_trailing(a: Seq<u8>, c: Seq<u8>, b: Seq<u8>, sid: usize)
    requires
        a.len() > 0,
        b.len() > 0,
        forall|i: int| 0 <= i < a.len() ==> #[trigger] a[i] != LBRACE,
        exists|p: int| 0 <= p < a.len() && !is_ws(#[trigger] a[p]),
        forall|i: int| 0 <= i < b.len() ==> #[trigger] b[i] != LBRACE,
        exists|p: int| 0 <= p < b.len() && !is_ws(#[trigger] b[p]),
        forall|i: int| 0 <= i < c.len() ==> #[trigger] c[i] != PCT,
        c.len() > 0 ==> c[c.len() - 1] != HYPH,
        a.len() + c.len() + b.len() + 5 <= usize::MAX,
    ensures
        ({
            let s = a + seq![LBRACE, PCT, HYPH] + c + seq![PCT, RBRACE] + b;
            let na = a.len() as int;
            let j = na + 3;
            let k = j + c.len();
            let nb = k + 2;
            let len = s.len() as int;
            let ha = ws_hi(s, 0, na);
            let lc = ws_lo(s, j, k);
            let hc = ws_hi(s, lc, k);
            scan_spec(s, sid) == Ok::<Seq<Block>, ParseError>(
                seq![
                    Block::Literal(Span { src: sid, start: 0 as usize, end: ha as usize }),
                    Block::Code(Span { src: sid, start: lc as usize, end: hc as usize }),
                    Block::Literal(Span { src: sid, start: nb as usize, end: len as usize }),
                ],
            )
        }),
{
    let s = a + seq![LBRACE, PCT, HYPH] + c + seq![PCT, RBRACE] + b;
    let na = a.len() as int;
    let j = na + 3;
    let k = j + c.len();
    let nb = k + 2;
    let len = s.len() as int;
    assert(len == nb + b.len());

    assert forall|i: int| 0 <= i < na implies s[i] == a[i] by {}
    assert(s[na] == LBRACE && s[na + 1] == PCT && s[na + 2] == HYPH);
    assert forall|i: int| j <= i < k implies s[i] == c[i - j] by {}
    assert(s[k] == PCT && s[k + 1] == RBRACE);
    assert forall|i: int| nb <= i < len implies s[i] == b[i - nb] by {}

    assert(delim_at(s, 0) is None) by {
        lemma_openers_at(s, 0);
        assert(s[0] == a[0] && a[0] != LBRACE);
    }
    assert(find(s, seq![LBRACE], 1) == Some(na)) by {
        lemma_at1(s, na, LBRACE);
        assert forall|p: int| 1 <= p < na implies !at(s, p, seq![LBRACE]) by {
            lemma_at1(s, p, LBRACE);
            assert(s[p] == a[p]);
        }
        lemma_find_is(s, seq![LBRACE], 1, na);
    }
    let lit_a = RawBlock {
        lead: false,
        trail: false,
        block: Block::Literal(Span { src: sid, start: 0 as usize, end: na as usize }),
    };
    assert(scan_step(s, sid, 0) == Ok::<(RawBlock, int), ParseError>((lit_a, na)));

    assert(delim_at(s, na) == Some(Delim::Code)) by {
        lemma_openers_at(s, na);
    }
    assert(find(s, closer(Delim::Code), j) == Some(k)) by {
        lemma_at2(s, k, PCT, RBRACE);
        assert forall|p: int| j <= p < k implies !at(s, p, closer(Delim::Code)) by {
            lemma_at2(s, p, PCT, RBRACE);
            assert(s[p] == c[p - j]);
        }
        lemma_find_is(s, closer(Delim::Code), j, k);
    }
    // No trailing marker: either the body is empty, or its last byte is
    // not a hyphen.
    assert(k > j ==> s[k - 1] == c[c.len() - 1]);
    let lc = ws_lo(s, j, k);
    let hc = ws_hi(s, lc, k);
    lemma_ws_lo_bounds(s, j, k);
    lemma_ws_hi_bounds(s, lc, k);
    let code_b = RawBlock {
        lead: true,
        trail: false,
        block: Block::Code(Span { src: sid, start: lc as usize, end: hc as usize }),
    };
    assert(scan_step(s, sid, na) == Ok::<(RawBlock, int), ParseError>((code_b, nb)));

    assert(delim_at(s, nb) is None) by {
        lemma_openers_at(s, nb);
        assert(s[nb] == b[0] && b[0] != LBRACE);
    }
    assert(find(s, seq![LBRACE], nb + 1) is None) by {
        assert forall|p: int| nb + 1 <= p implies !at(s, p, seq![LBRACE]) by {
            lemma_at1(s, p, LBRACE);
            if p < len {
                assert(s[p] == b[p - nb]);
            }
        }
        crate::scan::lemma_find_is_none(s, seq![LBRACE], nb + 1);
    }
    let lit_b = RawBlock {
        lead: false,
        trail: false,
        block: Block::Literal(Span { src: sid, start: nb as usize, end: len as usize }),
    };
    assert(scan_step(s, sid, nb) == Ok::<(RawBlock, int), ParseError>((lit_b, len)));

    let lit_a2 = RawBlock { lead: false, trail: true, block: lit_a.block };
    let code_b2 = code_b;
    let lit_b2 = lit_b;
    let ha = ws_hi(s, 0, na);
    let pa = choose|p: int| 0 <= p < a.len() && !is_ws(#[trigger] a[p]);
    assert(s[pa] == a[pa]);
    lemma_ws_hi_gt_nonws(s, 0, na, pa);
    lemma_ws_hi_bounds(s, 0, na);
    assert(emit(s, lit_a2) =~= seq![
        Block::Literal(Span { src: sid, start: 0 as usize, end: ha as usize }),
    ]);
    assert(emit(s, code_b2) =~= seq![code_b.block]);
    let pb = choose|p: int| 0 <= p < b.len() && !is_ws(#[trigger] b[p]);
    assert(s[nb + pb] == b[pb]);
    assert(emit(s, lit_b2) =~= seq![lit_b.block]);

    assert(scan_from(s, sid, len, Some(lit_b2)) == Ok::<Seq<Block>, ParseError>(emit(s, lit_b2)));
    assert(scan_from(s, sid, nb, Some(code_b)) == Ok::<Seq<Block>, ParseError>(
        emit(s, code_b2) + emit(s, lit_b2),
    ));
    assert(scan_from(s, sid, na, Some(lit_a)) == Ok::<Seq<Block>, ParseError>(
        emit(s, lit_a2) + (emit(s, code_b2) + emit(s, lit_b2)),
    ));
    assert(scan_spec(s, sid) == scan_from(s, sid, na, Some(lit_a)));
    assert(emit(s, lit_a2) + (emit(s, code_b2) + emit(s, lit_b2)) =~= seq![
        Block::Literal(Span { src: sid, start: 0 as usize, end: ha as usize }),
        Block::Code(Span { src: sid, start: lc as usize, end: hc as usize }),
        Block::Literal(Span { src: sid, start: nb as usize, end: len as usize }),
    ]);
}

} // verus!
