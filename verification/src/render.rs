//! What the generated program writes at run time, as a function of the
//! emission units and the rendered argument values: literal fragments are
//! written as they stand, and each argument goes through the escaping
//! policy of its data kind.

use vstd::prelude::*;
use vstd::string::StringSliceAdditionalSpecFns;

use crate::assemble::{SpecUnit, Unit, WItem};
use crate::escape::{escape_append, escaped};
use crate::scan::DataKind;
use crate::source::Source;

verus! {

/// One bound argument as the host rendered it: the display or debug text
/// of the value, and whether the value's static type is classified safe.
pub struct RenderedArg {
    /// The rendered text of the value.
    pub text: Vec<u8>,
    /// True when the static type needs no escaping.
    pub safe: bool,
}

/// The mathematical shape of a [`RenderedArg`].
pub ghost struct SpecArg {
    /// The rendered text.
    pub text: Seq<u8>,
    /// The safety classification.
    pub safe: bool,
}

impl View for RenderedArg {
    type V = SpecArg;

    open spec fn view(&self) -> SpecArg {
        SpecArg { text: self.text@, safe: self.safe }
    }
}

/// The views of an argument vector.
pub open spec fn args_view(args: Seq<RenderedArg>) -> Seq<SpecArg> {
    args.map_values(|a: RenderedArg| a@)
}

/// What one argument writes: raw arguments verbatim; escaped arguments
/// verbatim only when their type is safe; debug and verbose arguments
/// always through the escaper.
pub open spec fn arg_out(k: DataKind, a: SpecArg) -> Seq<u8> {
    match k {
        DataKind::Raw => a.text,
        DataKind::Escaped => if a.safe {
            a.text
        } else {
            escaped(a.text)
        },
        _ => escaped(a.text),
    }
}

/// The text of the source a span points into.
pub open spec fn text_of(srcs: Seq<Source>, sid: int) -> Seq<u8> {
    srcs[sid].text@
}

/// A span that can be resolved against the source list.
pub open spec fn span_ok(sp: crate::source::Span, srcs: Seq<Source>) -> bool {
    sp.src < srcs.len() && sp.wf(text_of(srcs, sp.src as int).len() as int)
}

/// All spans of a write run can be resolved.
pub open spec fn witems_ok(ws: Seq<WItem>, srcs: Seq<Source>) -> bool {
    forall|i: int| 0 <= i < ws.len() ==> match #[trigger] ws[i] {
        WItem::Lit(sp) => span_ok(sp, srcs),
        WItem::Arg(_, sp) => span_ok(sp, srcs),
    }
}

/// All spans of a unit sequence can be resolved.
pub open spec fn units_ok(us: Seq<SpecUnit>, srcs: Seq<Source>) -> bool {
    forall|i: int| 0 <= i < us.len() ==> match #[trigger] us[i] {
        SpecUnit::Code(cs) => forall|j: int| 0 <= j < cs.len() ==> span_ok(#[trigger] cs[j], srcs),
        SpecUnit::Write(ws) => witems_ok(ws, srcs),
        _ => true,
    }
}

/// The number of argument placeholders in a write run.
pub open spec fn args_in_witems(ws: Seq<WItem>) -> int
    decreases ws.len(),
{
    if ws.len() == 0 {
        0
    } else {
        (match ws[0] {
            WItem::Arg(_, _) => 1int,
            _ => 0int,
        }) + args_in_witems(ws.skip(1))
    }
}

/// The number of argument placeholders in a unit sequence.
pub open spec fn args_in_units(us: Seq<SpecUnit>) -> int
    decreases us.len(),
{
    if us.len() == 0 {
        0
    } else {
        (match us[0] {
            SpecUnit::Write(ws) => args_in_witems(ws),
            _ => 0int,
        }) + args_in_units(us.skip(1))
    }
}

/// Placeholder counts are never negative.
pub proof fn lemma_args_in_witems_nonneg(ws: Seq<WItem>)
    ensures
        args_in_witems(ws) >= 0,
    decreases ws.len(),
{
    if ws.len() > 0 {
        lemma_args_in_witems_nonneg(ws.skip(1));
    }
}

/// Placeholder counts are never negative.
pub proof fn lemma_args_in_units_nonneg(us: Seq<SpecUnit>)
    ensures
        args_in_units(us) >= 0,
    decreases us.len(),
{
    if us.len() > 0 {
        match us[0] {
            SpecUnit::Write(ws) => lemma_args_in_witems_nonneg(ws),
            _ => {},
        }
        lemma_args_in_units_nonneg(us.skip(1));
    }
}

/// What one write run renders, consuming its arguments in order.
pub open spec fn render_witems(ws: Seq<WItem>, srcs: Seq<Source>, args: Seq<SpecArg>) -> Seq<u8>
    decreases ws.len(),
{
    if ws.len() == 0 {
        Seq::empty()
    } else {
        match ws[0] {
            WItem::Lit(sp) => sp.bytes(text_of(srcs, sp.src as int)) + render_witems(
                ws.skip(1),
                srcs,
                args,
            ),
            WItem::Arg(k, _) => arg_out(k, args[0]) + render_witems(ws.skip(1), srcs, args.skip(1)),
        }
    }
}

/// What a unit sequence renders: code units and file boundaries write
/// nothing themselves; each write run consumes its arguments.
pub open spec fn render_units_spec(us: Seq<SpecUnit>, srcs: Seq<Source>, args: Seq<SpecArg>) -> Seq<
    u8,
>
    decreases us.len(),
{
    if us.len() == 0 {
        Seq::empty()
    } else {
        match us[0] {
            SpecUnit::Write(ws) => render_witems(ws, srcs, args.take(args_in_witems(ws)))
                + render_units_spec(us.skip(1), srcs, args.skip(args_in_witems(ws))),
            _ => render_units_spec(us.skip(1), srcs, args),
        }
    }
}

/// Extending the argument list beyond what a write run consumes does not
/// change what it renders.
proof fn lemma_render_witems_take(ws: Seq<WItem>, srcs: Seq<Source>, args: Seq<SpecArg>)
    requires
        args_in_witems(ws) <= args.len(),
    ensures
        render_witems(ws, srcs, args.take(args_in_witems(ws))) == render_witems(ws, srcs, args),
    decreases ws.len(),
{
    lemma_args_in_witems_nonneg(ws);
    if ws.len() == 0 {
    } else {
        match ws[0] {
            WItem::Lit(sp) => {
                lemma_render_witems_take(ws.skip(1), srcs, args);
                assert(args_in_witems(ws) == args_in_witems(ws.skip(1)));
            },
            WItem::Arg(k, _) => {
                lemma_args_in_witems_nonneg(ws.skip(1));
                lemma_render_witems_take(ws.skip(1), srcs, args.skip(1));
                let n = args_in_witems(ws);
                assert(args.take(n)[0] == args[0]);
                assert(args.take(n).skip(1) =~= args.skip(1).take(n - 1));
            },
        }
    }
}

/// Render one write run into `out`, consuming `args[ai..]`.
fn render_witems_into(
    out: &mut Vec<u8>,
    ws: &Vec<WItem>,
    sources: &Vec<Source>,
    args: &Vec<RenderedArg>,
    ai: usize,
) -> (r: usize)
    requires
        witems_ok(ws@, sources@),
        ai <= args@.len(),
        args_in_witems(ws@) <= args@.len() - ai,
    ensures
        final(out)@ == old(out)@ + render_witems(ws@, sources@, args_view(args@).skip(ai as int)),
        r == ai + args_in_witems(ws@),
{
    proof {
        lemma_args_in_witems_nonneg(ws@);
    }
    let n = ws.len();
    let alen = args.len();
    let mut i: usize = 0;
    let mut a: usize = ai;
    assert(ws@.skip(0) =~= ws@);
    assert(args_view(args@).skip(ai as int) == args_view(args@).skip(a as int));
    while i < n
        invariant
            i <= n,
            n == ws@.len(),
            ai <= a <= alen,
            alen == args@.len(),
            witems_ok(ws@, sources@),
            args_in_witems(ws@.skip(i as int)) <= args@.len() - a,
            a == ai + args_in_witems(ws@) - args_in_witems(ws@.skip(i as int)),
            old(out)@ + render_witems(ws@, sources@, args_view(args@).skip(ai as int)) == out@
                + render_witems(ws@.skip(i as int), sources@, args_view(args@).skip(a as int)),
        decreases n - i,
    {
        proof {
            lemma_args_in_witems_nonneg(ws@.skip(i as int));
            lemma_args_in_witems_nonneg(ws@.skip(i + 1));
            assert(ws@.skip(i as int)[0] == ws@[i as int]);
            assert(ws@.skip(i as int).skip(1) =~= ws@.skip(i + 1));
        }
        match ws[i] {
            WItem::Lit(sp) => {
                let src = &sources[sp.src];
                let piece = sp.slice_of(src.text.as_slice());
                let ghost pre = out@;
                append_bytes(out, piece);
                proof {
                    assert(out@ =~= pre + sp.bytes(text_of(sources@, sp.src as int)));
                }
            },
            WItem::Arg(k, _sp) => {
                proof {
                    lemma_args_in_witems_nonneg(ws@.skip(i + 1));
                    assert(args_in_witems(ws@.skip(i as int)) >= 1);
                    assert(a < args@.len());
                }
                let arg = &args[a];
                let ghost pre = out@;
                match k {
                    DataKind::Raw => {
                        append_bytes(out, arg.text.as_slice());
                    },
                    DataKind::Escaped => {
                        if arg.safe {
                            append_bytes(out, arg.text.as_slice());
                        } else {
                            escape_append(out, arg.text.as_slice());
                        }
                    },
                    _ => {
                        escape_append(out, arg.text.as_slice());
                    },
                }
                proof {
                    assert(args_view(args@).skip(a as int)[0] == args@[a as int]@);
                    assert(out@ =~= pre + arg_out(k, args_view(args@).skip(a as int)[0]));
                    assert(args_view(args@).skip(a as int).skip(1) =~= args_view(args@).skip(
                        a + 1,
                    ));
                }
                a = a + 1;
            },
        }
        i = i + 1;
    }
    assert(ws@.skip(n as int) =~= Seq::<WItem>::empty());
    assert(out@ =~= old(out)@ + render_witems(ws@, sources@, args_view(args@).skip(ai as int)));
    a
}

/// Append a byte slice.
pub fn append_bytes(out: &mut Vec<u8>, s: &[u8])
    ensures
        final(out)@ == old(out)@ + s@,
{
    let mut i: usize = 0;
    while i < s.len()
        invariant
            i <= s@.len(),
            out@ == old(out)@ + s@.take(i as int),
        decreases s@.len() - i,
    {
        out.push(s[i]);
        assert(s@.take(i + 1) =~= s@.take(i as int) + seq![s@[i as int]]);
        i = i + 1;
    }
    assert(s@.take(s@.len() as int) =~= s@);
}

/// Render a unit sequence with the given argument values, in order. This
/// is the run-time meaning of the generated program: a pure function of
/// the units and the bound values.
pub fn render_units(units: &Vec<Unit>, sources: &Vec<Source>, args: &Vec<RenderedArg>) -> (r: Vec<
    u8,
>)
    requires
        units_ok(crate::assemble::units_view(units@), sources@),
        args_in_units(crate::assemble::units_view(units@)) == args@.len(),
    ensures
        r@ == render_units_spec(
            crate::assemble::units_view(units@),
            sources@,
            args_view(args@),
        ),
{
    let ghost uv = crate::assemble::units_view(units@);
    let ghost av = args_view(args@);
    let n = units.len();
    let mut out: Vec<u8> = Vec::new();
    let mut a: usize = 0;
    let mut i: usize = 0;
    proof {
        lemma_args_in_units_nonneg(uv);
        assert(uv.skip(0) =~= uv);
        assert(av.skip(0) =~= av);
    }
    while i < n
        invariant
            i <= n,
            n == units@.len(),
            uv == crate::assemble::units_view(units@),
            av == args_view(args@),
            av.len() == args@.len(),
            units_ok(uv, sources@),
            a <= args@.len(),
            args_in_units(uv.skip(i as int)) == args@.len() - a,
            render_units_spec(uv, sources@, av) == out@ + render_units_spec(
                uv.skip(i as int),
                sources@,
                av.skip(a as int),
            ),
        decreases n - i,
    {
        proof {
            assert(uv.skip(i as int)[0] == uv[i as int]);
            assert(uv[i as int] == units@[i as int]@);
            assert(uv.skip(i as int).skip(1) =~= uv.skip(i + 1));
            lemma_args_in_units_nonneg(uv.skip(i + 1));
        }
        match &units[i] {
            Unit::Write(ws) => {
                proof {
                    lemma_args_in_witems_nonneg(ws@);
                    lemma_render_witems_take(ws@, sources@, av.skip(a as int));
                }
                let a2 = render_witems_into(&mut out, ws, sources, args, a);
                proof {
                    assert(av.skip(a as int).skip(args_in_witems(ws@)) =~= av.skip(
                        a + args_in_witems(ws@),
                    ));
                }
                a = a2;
            },
            _ => {},
        }
        i = i + 1;
    }
    assert(uv.skip(n as int) =~= Seq::<SpecUnit>::empty());
    assert(render_units_spec(uv, sources@, av) =~= out@);
    out
}

} // verus!

// ---------------------------------------------------------------------------
// Law: a template with no delimiters reproduces its text byte for byte
// ---------------------------------------------------------------------------

use crate::assemble::{flush, group_from, grouped};
use crate::scan::{
    delim_at, emit, lemma_find_some, lemma_scan_step_advances, scan_from, scan_spec, scan_step,
    Block, ParseError, RawBlock,
};
use crate::source::Span;

verus! {

/// No delimiter opener occurs anywhere in `s`.
pub open spec fn opener_free(s: Seq<u8>) -> bool {
    forall|i: int| delim_at(s, i) is None
}

/// Every block is a literal over source `sid` within `n` bytes.
pub open spec fn all_lits_ok(bs: Seq<Block>, sid: usize, n: int) -> bool {
    forall|i: int| 0 <= i < bs.len() ==> match #[trigger] bs[i] {
        Block::Literal(sp) => sp.src == sid && sp.start <= sp.end && sp.end <= n,
        _ => false,
    }
}

/// The concatenated bytes of a literal block sequence.
pub open spec fn cat_lits(bs: Seq<Block>, s: Seq<u8>) -> Seq<u8>
    decreases bs.len(),
{
    if bs.len() == 0 {
        Seq::empty()
    } else {
        (match bs[0] {
            Block::Literal(sp) => s.subrange(sp.start as int, sp.end as int),
            _ => Seq::empty(),
        }) + cat_lits(bs.skip(1), s)
    }
}

proof fn lemma_scan_lit_chain(s: Seq<u8>, sid: usize, i: int, lo: int)
    requires
        opener_free(s),
        s.len() <= usize::MAX,
        0 <= lo < i <= s.len(),
    ensures
        scan_from(
            s,
            sid,
            i,
            Some(
                RawBlock {
                    lead: false,
                    trail: false,
                    block: Block::Literal(
                        Span { src: sid, start: lo as usize, end: i as usize },
                    ),
                },
            ),
        ) matches Ok(bs) && all_lits_ok(bs, sid, s.len() as int) && cat_lits(bs, s) == s.subrange(
            lo,
            s.len() as int,
        ),
    decreases s.len() - i,
{
    let held = RawBlock {
        lead: false,
        trail: false,
        block: Block::Literal(Span { src: sid, start: lo as usize, end: i as usize }),
    };
    if i >= s.len() {
        let bs = emit(s, held);
        assert(bs =~= seq![
            Block::Literal(Span { src: sid, start: lo as usize, end: i as usize }),
        ]);
        assert(bs.skip(1) =~= Seq::<Block>::empty());
        assert(cat_lits(bs.skip(1), s) == Seq::<u8>::empty());
        assert(bs[0] == Block::Literal(Span { src: sid, start: lo as usize, end: i as usize }));
        assert(cat_lits(bs, s) == s.subrange(lo, i) + cat_lits(bs.skip(1), s));
        assert(cat_lits(bs, s) =~= s.subrange(lo, s.len() as int));
    } else {
        assert(delim_at(s, i) is None);
        lemma_scan_step_advances(s, sid, i);
        let r = scan_step(s, sid, i)->Ok_0;
        let b = r.0;
        let next = r.1;
        assert(i < next <= s.len());
        assert(b == RawBlock {
            lead: false,
            trail: false,
            block: Block::Literal(Span { src: sid, start: i as usize, end: next as usize }),
        });
        lemma_scan_lit_chain(s, sid, next, i);
        let rest = scan_from(s, sid, next, Some(b))->Ok_0;
        let fixed = held;
        assert(scan_from(s, sid, i, Some(held)) == Ok::<Seq<Block>, ParseError>(
            emit(s, fixed) + rest,
        ));
        let head = seq![Block::Literal(Span { src: sid, start: lo as usize, end: i as usize })];
        assert(emit(s, fixed) =~= head);
        let bs = head + rest;
        assert(bs[0] == head[0]);
        assert(bs.skip(1) =~= rest);
        assert(cat_lits(bs, s) == s.subrange(lo, i) + cat_lits(rest, s));
        assert(cat_lits(bs, s) =~= s.subrange(lo, s.len() as int));
        assert(all_lits_ok(bs, sid, s.len() as int));
    }
}

/// Scanning a text with no delimiter openers yields literal blocks whose
/// bytes, in order, are exactly the text.
pub proof fn lemma_scan_literal_only(s: Seq<u8>, sid: usize)
    requires
        opener_free(s),
        s.len() <= usize::MAX,
    ensures
        scan_spec(s, sid) matches Ok(bs) && all_lits_ok(bs, sid, s.len() as int) && cat_lits(
            bs,
            s,
        ) == s,
{
    if s.len() == 0 {
        assert(scan_spec(s, sid) == Ok::<Seq<Block>, ParseError>(Seq::empty()));
        assert(cat_lits(Seq::empty(), s) =~= s);
    } else {
        assert(delim_at(s, 0) is None);
        lemma_scan_step_advances(s, sid, 0);
        let r = scan_step(s, sid, 0)->Ok_0;
        let b = r.0;
        let next = r.1;
        assert(0 < next <= s.len());
        assert(b == RawBlock {
            lead: false,
            trail: false,
            block: Block::Literal(Span { src: sid, start: 0 as usize, end: next as usize }),
        });
        lemma_scan_lit_chain(s, sid, next, 0);
        assert(scan_spec(s, sid) == scan_from(s, sid, next, Some(b)));
        assert(s.subrange(0, s.len() as int) =~= s);
    }
}

/// The items of a block sequence.
pub open spec fn blocks_items(bs: Seq<Block>) -> Seq<Item> {
    bs.map_values(|b: Block| Item::Blk(b))
}

use crate::assemble::{Item, SpecUnit as SU};

/// Every item of a write run is a literal fragment.
pub open spec fn all_lit_ws(ws: Seq<WItem>) -> bool {
    forall|j: int| 0 <= j < ws.len() ==> (#[trigger] ws[j]) is Lit
}

/// A run of literal fragments has no argument placeholders.
proof fn lemma_all_lit_args_zero(ws: Seq<WItem>)
    requires
        all_lit_ws(ws),
    ensures
        args_in_witems(ws) == 0,
    decreases ws.len(),
{
    if ws.len() > 0 {
        assert(ws[0] is Lit);
        assert(all_lit_ws(ws.skip(1)));
        lemma_all_lit_args_zero(ws.skip(1));
    }
}

proof fn lemma_render_lits_snoc(ws: Seq<WItem>, srcs: Seq<Source>, sp: Span)
    requires
        all_lit_ws(ws),
    ensures
        render_witems(ws + seq![WItem::Lit(sp)], srcs, Seq::empty()) == render_witems(
            ws,
            srcs,
            Seq::empty(),
        ) + sp.bytes(text_of(srcs, sp.src as int)),
    decreases ws.len(),
{
    let one = seq![WItem::Lit(sp)];
    if ws.len() == 0 {
        assert((ws + one)[0] == WItem::Lit(sp));
        assert((ws + one).skip(1) =~= Seq::<WItem>::empty());
        assert(render_witems((ws + one).skip(1), srcs, Seq::empty()) == Seq::<u8>::empty());
        assert(render_witems(ws, srcs, Seq::empty()) == Seq::<u8>::empty());
        assert(render_witems(ws + one, srcs, Seq::empty()) == sp.bytes(
            text_of(srcs, sp.src as int),
        ) + render_witems((ws + one).skip(1), srcs, Seq::empty()));
        assert(render_witems(ws + one, srcs, Seq::empty()) =~= sp.bytes(
            text_of(srcs, sp.src as int),
        ));
    } else {
        assert(ws[0] is Lit);
        assert(all_lit_ws(ws.skip(1)));
        lemma_render_lits_snoc(ws.skip(1), srcs, sp);
        assert((ws + one)[0] == ws[0]);
        assert((ws + one).skip(1) =~= ws.skip(1) + one);
        assert(render_witems(ws + one, srcs, Seq::empty()) =~= render_witems(
            ws,
            srcs,
            Seq::empty(),
        ) + sp.bytes(text_of(srcs, sp.src as int)));
    }
}

/// Every item in `items[i..]` is a literal block.
pub open spec fn lits_from(items: Seq<Item>, i: int) -> bool {
    forall|j: int| i <= j < items.len() ==> match #[trigger] items[j] {
        Item::Blk(b) => b is Literal,
        _ => false,
    }
}

/// The concatenated bytes of the literal items from `i` on.
pub open spec fn cat_items(items: Seq<Item>, i: int, s: Seq<u8>) -> Seq<u8>
    decreases items.len() - i,
    when 0 <= i <= items.len()
{
    if i >= items.len() {
        Seq::empty()
    } else {
        (match items[i] {
            Item::Blk(Block::Literal(sp)) => s.subrange(sp.start as int, sp.end as int),
            _ => Seq::empty(),
        }) + cat_items(items, i + 1, s)
    }
}

proof fn lemma_group_lits_render(
    items: Seq<Item>,
    i: int,
    ws: Seq<WItem>,
    srcs: Seq<Source>,
    s: Seq<u8>,
    sid: usize,
)
    requires
        0 <= i <= items.len(),
        lits_from(items, i),
        all_lit_ws(ws),
        sid < srcs.len(),
        text_of(srcs, sid as int) == s,
        forall|j: int| i <= j < items.len() ==> match #[trigger] items[j] {
            Item::Blk(Block::Literal(sp)) => sp.src == sid,
            _ => true,
        },
    ensures
        render_units_spec(group_from(items, i, Some(SU::Write(ws))), srcs, Seq::empty())
            == render_witems(ws, srcs, Seq::empty()) + cat_items(items, i, s),
    decreases items.len() - i,
{
    if i >= items.len() {
        let us = flush(Some(SU::Write(ws)));
        assert(us =~= seq![SU::Write(ws)]);
        assert(us.skip(1) =~= Seq::<SU>::empty());
        lemma_all_lit_args_zero(ws);
        assert(Seq::<SpecArg>::empty().take(0) =~= Seq::<SpecArg>::empty());
        assert(Seq::<SpecArg>::empty().skip(0) =~= Seq::<SpecArg>::empty());
        assert(us[0] == SU::Write(ws));
        assert(render_units_spec(us.skip(1), srcs, Seq::empty()) == Seq::<u8>::empty());
        assert(render_units_spec(us, srcs, Seq::empty()) == render_witems(
            ws,
            srcs,
            Seq::<SpecArg>::empty().take(0),
        ) + render_units_spec(us.skip(1), srcs, Seq::<SpecArg>::empty().skip(0)));
        assert(render_units_spec(us, srcs, Seq::empty()) =~= render_witems(
            ws,
            srcs,
            Seq::empty(),
        ));
        assert(render_witems(ws, srcs, Seq::empty()) + cat_items(items, i, s) =~= render_witems(
            ws,
            srcs,
            Seq::empty(),
        ));
    } else {
        match items[i] {
            Item::Blk(b) => match b {
                Block::Literal(sp) => {
                    assert(all_lit_ws(ws + seq![WItem::Lit(sp)])) by {
                        assert forall|j: int| 0 <= j < (ws + seq![WItem::Lit(sp)]).len() implies (
                        #[trigger] (ws + seq![WItem::Lit(sp)])[j]) is Lit by {
                            if j < ws.len() {
                                assert((ws + seq![WItem::Lit(sp)])[j] == ws[j]);
                            }
                        }
                    }
                    lemma_group_lits_render(items, i + 1, ws + seq![WItem::Lit(sp)], srcs, s, sid);
                    lemma_render_lits_snoc(ws, srcs, sp);
                    assert(render_witems(ws, srcs, Seq::empty()) + (sp.bytes(
                        text_of(srcs, sp.src as int),
                    ) + cat_items(items, i + 1, s)) =~= (render_witems(ws, srcs, Seq::empty())
                        + sp.bytes(text_of(srcs, sp.src as int))) + cat_items(items, i + 1, s));
                },
                _ => {
                    assert(false);
                },
            },
            _ => {
                assert(false);
            },
        }
    }
}

/// For any literal text containing no delimiter openers, the compiled
/// template reproduces the text byte for byte: the scan succeeds, and
/// rendering the assembled units with no arguments gives back the input.
pub proof fn lemma_literal_identity(s: Seq<u8>, sid: usize, srcs: Seq<Source>)
    requires
        opener_free(s),
        s.len() <= usize::MAX,
        sid < srcs.len(),
        text_of(srcs, sid as int) == s,
    ensures
        scan_spec(s, sid) is Ok,
        render_units_spec(
            grouped(blocks_items(scan_spec(s, sid)->Ok_0)),
            srcs,
            Seq::empty(),
        ) == s,
{
    lemma_scan_literal_only(s, sid);
    let bs = scan_spec(s, sid)->Ok_0;
    let items = blocks_items(bs);
    lemma_cat_items_is_cat_lits(bs, items, s, 0);
    assert(bs.skip(0) =~= bs);
    if bs.len() == 0 {
        assert(items.len() == 0);
        assert(grouped(items) =~= Seq::<SU>::empty());
        assert(render_units_spec(grouped(items), srcs, Seq::empty()) =~= Seq::<u8>::empty());
        assert(cat_lits(bs, s) == s);
    } else {
        assert(items[0] == Item::Blk(bs[0]));
        match bs[0] {
            Block::Literal(sp) => {
                assert forall|j: int| 1 <= j < items.len() implies match #[trigger] items[j] {
                    Item::Blk(b) => b is Literal,
                    _ => false,
                } by {
                    assert(items[j] == Item::Blk(bs[j]));
                }
                assert(lits_from(items, 1));
                assert forall|j: int| 1 <= j < items.len() implies match #[trigger] items[j] {
                    Item::Blk(Block::Literal(sp2)) => sp2.src == sid,
                    _ => true,
                } by {
                    assert(items[j] == Item::Blk(bs[j]));
                }
                assert(all_lit_ws(seq![WItem::Lit(sp)]));
                lemma_group_lits_render(items, 1, seq![WItem::Lit(sp)], srcs, s, sid);
                assert(grouped(items) == group_from(items, 1, Some(SU::Write(seq![
                    WItem::Lit(sp),
                ]))));
                let one = seq![WItem::Lit(sp)];
                assert(Seq::<WItem>::empty() + one =~= one);
                lemma_render_lits_snoc(Seq::empty(), srcs, sp);
                assert(render_witems(Seq::<WItem>::empty(), srcs, Seq::empty())
                    =~= Seq::<u8>::empty());
                assert(render_witems(one, srcs, Seq::empty()) == sp.bytes(
                    text_of(srcs, sp.src as int),
                ));
                assert(render_units_spec(grouped(items), srcs, Seq::empty()) == sp.bytes(
                    text_of(srcs, sp.src as int),
                ) + cat_items(items, 1, s));
                assert(sp.bytes(text_of(srcs, sp.src as int)) + cat_items(items, 1, s)
                    == cat_items(items, 0, s));
                assert(bs.skip(0) =~= bs);
                assert(cat_items(items, 0, s) == cat_lits(bs, s));
            },
            _ => {
                assert(false);
            },
        }
    }
}

proof fn lemma_cat_items_is_cat_lits(bs: Seq<Block>, items: Seq<Item>, s: Seq<u8>, i: int)
    requires
        items == blocks_items(bs),
        0 <= i <= bs.len(),
    ensures
        cat_items(items, i, s) == cat_lits(bs.skip(i), s),
    decreases bs.len() - i,
{
    assert(items.len() == bs.len());
    if i >= bs.len() {
        assert(bs.skip(i) =~= Seq::<Block>::empty());
    } else {
        lemma_cat_items_is_cat_lits(bs, items, s, i + 1);
        assert(items[i] == Item::Blk(bs[i]));
        assert(bs.skip(i)[0] == bs[i]);
        assert(bs.skip(i).skip(1) =~= bs.skip(i + 1));
    }
}

} // verus!

verus! {

/// The failure of an output sink during a render call; propagated to the
/// caller verbatim, never retried.
#[derive(Clone, Copy, PartialEq, Eq, Structural, Debug)]
pub struct RenderError;

/// A generic output sink for a generated program: anything that accepts
/// text and raw fragments.
pub trait WriteAny {
    /// Write a text fragment.
    fn write_str(&mut self, s: &str) -> Result<(), RenderError>;

    /// Write raw bytes.
    fn write_bytes(&mut self, data: &[u8]) -> Result<(), RenderError>;
}

impl WriteAny for Vec<u8> {
    fn write_str(&mut self, s: &str) -> (r: Result<(), RenderError>)
        ensures
            final(self)@ == old(self)@ + s.spec_bytes(),
            r is Ok,
    {
        append_bytes(self, s.as_bytes());
        Ok(())
    }

    fn write_bytes(&mut self, data: &[u8]) -> (r: Result<(), RenderError>)
        ensures
            final(self)@ == old(self)@ + data@,
            r is Ok,
    {
        append_bytes(self, data);
        Ok(())
    }
}

/// What a generated program implements: rendering itself into a generic
/// sink, with convenience entry points for in-memory buffers.
pub trait RenderInto {
    /// Render into the given sink.
    fn render_into<W: WriteAny>(&self, output: &mut W) -> Result<(), RenderError>;

    /// Render into a fresh byte buffer.
    fn render_bytes(&self) -> Result<Vec<u8>, RenderError> {
        let mut buf: Vec<u8> = Vec::new();
        match self.render_into(&mut buf) {
            Ok(()) => Ok(buf),
            Err(e) => Err(e),
        }
    }
}

} // verus!

verus! {

/// Count the placeholders of one write run.
fn count_witems(ws: &Vec<WItem>) -> (r: usize)
    ensures
        r == args_in_witems(ws@),
{
    proof {
        lemma_args_in_witems_nonneg(ws@);
    }
    let n = ws.len();
    let mut c: usize = 0;
    let mut j: usize = 0;
    assert(ws@.skip(0) =~= ws@);
    while j < n
        invariant
            j <= n,
            c <= j,
            n == ws@.len(),
            args_in_witems(ws@) == c + args_in_witems(ws@.skip(j as int)),
        decreases n - j,
    {
        proof {
            assert(ws@.skip(j as int)[0] == ws@[j as int]);
            assert(ws@.skip(j as int).skip(1) =~= ws@.skip(j + 1));
        }
        match ws[j] {
            WItem::Arg(_, _) => {
                c = c + 1;
            },
            _ => {},
        }
        j = j + 1;
    }
    assert(ws@.skip(n as int) =~= Seq::<WItem>::empty());
    c
}

/// The number of argument values a unit sequence consumes when rendered;
/// what a caller must hand to [`render_units`]. `None` when the count
/// does not fit the machine.
pub fn placeholder_count(units: &Vec<Unit>) -> (r: Option<usize>)
    ensures
        match r {
            Some(c) => c == args_in_units(crate::assemble::units_view(units@)),
            None => args_in_units(crate::assemble::units_view(units@)) > usize::MAX,
        },
{
    let ghost uv = crate::assemble::units_view(units@);
    let n = units.len();
    let mut acc: usize = 0;
    let mut i: usize = 0;
    assert(uv.skip(0) =~= uv);
    while i < n
        invariant
            i <= n,
            n == units@.len(),
            uv == crate::assemble::units_view(units@),
            args_in_units(uv) == acc + args_in_units(uv.skip(i as int)),
        decreases n - i,
    {
        proof {
            assert(uv.skip(i as int)[0] == uv[i as int]);
            assert(uv[i as int] == units@[i as int]@);
            assert(uv.skip(i as int).skip(1) =~= uv.skip(i + 1));
        }
        match &units[i] {
            Unit::Write(ws) => {
                let c = count_witems(ws);
                proof {
                    lemma_args_in_units_nonneg(uv.skip(i + 1));
                }
                if acc > usize::MAX - c {
                    return None;
                }
                acc = acc + c;
            },
            _ => {},
        }
        i = i + 1;
    }
    assert(uv.skip(n as int) =~= Seq::<SpecUnit>::empty());
    Some(acc)
}

} // verus!
