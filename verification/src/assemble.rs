//! The group assembler: it folds the flat block stream into emission
//! units. Runs of code blocks collapse into one verbatim unit; runs of
//! literal and data blocks collapse into one formatted write; file
//! boundaries close whatever run is open.

use vstd::prelude::*;

use crate::scan::{Block, DataKind};
use crate::source::Span;

verus! {

/// One piece of a formatted write: a literal fragment or one argument
/// placeholder that keeps its own diagnostic span.
#[derive(Clone, Copy, PartialEq, Eq, Structural, Debug)]
pub enum WItem {
    /// A literal fragment.
    Lit(Span),
    /// An argument, tagged with how it renders.
    Arg(DataKind, Span),
}

/// One element of the assembler's input: a block, or the boundary of one
/// file's contribution after embed resolution.
#[derive(Clone, Copy, PartialEq, Eq, Structural, Debug)]
pub enum Item {
    /// A scanned block.
    Blk(Block),
    /// The blocks of source `sid` start here.
    Enter(usize),
    /// The current file's contribution ends here.
    Leave,
}

/// One emission unit of the generated program.
#[derive(Clone)]
pub enum Unit {
    /// A run of code blocks, spliced verbatim.
    Code(Vec<Span>),
    /// A run of literals and arguments, written through one synthesized
    /// format template.
    Write(Vec<WItem>),
    /// Opens the scope of source `sid` and carries its staleness marker.
    Enter(usize),
    /// Closes the scope of the current source.
    Leave,
}

/// The mathematical shape of a [`Unit`].
pub ghost enum SpecUnit {
    /// A run of code spans.
    Code(Seq<Span>),
    /// A run of write items.
    Write(Seq<WItem>),
    /// A file scope opens.
    Enter(usize),
    /// A file scope closes.
    Leave,
}

impl View for Unit {
    type V = SpecUnit;

    open spec fn view(&self) -> SpecUnit {
        match self {
            Unit::Code(v) => SpecUnit::Code(v@),
            Unit::Write(v) => SpecUnit::Write(v@),
            Unit::Enter(sid) => SpecUnit::Enter(*sid),
            Unit::Leave => SpecUnit::Leave,
        }
    }
}

/// The views of a unit sequence.
pub open spec fn units_view(us: Seq<Unit>) -> Seq<SpecUnit> {
    us.map_values(|u: Unit| u@)
}

/// What a pending run contributes when it closes.
pub open spec fn flush(cur: Option<SpecUnit>) -> Seq<SpecUnit> {
    match cur {
        None => Seq::empty(),
        Some(u) => seq![u],
    }
}

/// The assembly of `items[i..]` with `cur` as the currently open run.
/// Comments are already gone from the stream, and embeds must have been
/// resolved away; both are transparent here.
pub open spec fn group_from(items: Seq<Item>, i: int, cur: Option<SpecUnit>) -> Seq<SpecUnit>
    decreases items.len() - i,
    when 0 <= i <= items.len()
{
    if i >= items.len() {
        flush(cur)
    } else {
        match items[i] {
            Item::Blk(b) => match b {
                Block::Code(sp) => match cur {
                    Some(SpecUnit::Code(cs)) => group_from(items, i + 1, Some(SpecUnit::Code(cs + seq![sp]))),
                    _ => flush(cur) + group_from(items, i + 1, Some(SpecUnit::Code(seq![sp]))),
                },
                Block::Literal(sp) => match cur {
                    Some(SpecUnit::Write(ws)) => group_from(
                        items,
                        i + 1,
                        Some(SpecUnit::Write(ws + seq![WItem::Lit(sp)])),
                    ),
                    _ => flush(cur) + group_from(items, i + 1, Some(SpecUnit::Write(seq![WItem::Lit(sp)]))),
                },
                Block::Data(k, sp) => match cur {
                    Some(SpecUnit::Write(ws)) => group_from(
                        items,
                        i + 1,
                        Some(SpecUnit::Write(ws + seq![WItem::Arg(k, sp)])),
                    ),
                    _ => flush(cur) + group_from(
                        items,
                        i + 1,
                        Some(SpecUnit::Write(seq![WItem::Arg(k, sp)])),
                    ),
                },
                _ => group_from(items, i + 1, cur),
            },
            Item::Enter(sid) => flush(cur) + seq![SpecUnit::Enter(sid)] + group_from(items, i + 1, None),
            Item::Leave => flush(cur) + seq![SpecUnit::Leave] + group_from(items, i + 1, None),
        }
    }
}

/// The emission units of an item stream.
pub open spec fn grouped(items: Seq<Item>) -> Seq<SpecUnit> {
    group_from(items, 0, None)
}

/// The view of an open exec run.
pub open spec fn cur_view(cur: Option<Unit>) -> Option<SpecUnit> {
    match cur {
        None => None,
        Some(u) => Some(u@),
    }
}

/// Fold an item stream into emission units.
pub fn assemble(items: &Vec<Item>) -> (r: Vec<Unit>)
    ensures
        units_view(r@) == grouped(items@),
{
    let n = items.len();
    let mut out: Vec<Unit> = Vec::new();
    let mut cur: Option<Unit> = None;
    let mut i: usize = 0;
    while i < n
        invariant
            i <= n,
            n == items@.len(),
            grouped(items@) == units_view(out@) + group_from(items@, i as int, cur_view(cur)),
        decreases n - i,
    {
        let ghost pre = units_view(out@);
        match items[i] {
            Item::Blk(b) => {
                match b {
                    Block::Code(sp) => {
                        let taken = cur.take();
                        match taken {
                            Some(Unit::Code(mut cs)) => {
                                let ghost cs0 = cs@;
                                cs.push(sp);
                                cur = Some(Unit::Code(cs));
                                assert(cs@ =~= cs0 + seq![sp]);
                            },
                            other => {
                                flush_into(&mut out, other);
                                let mut cs: Vec<Span> = Vec::new();
                                cs.push(sp);
                                cur = Some(Unit::Code(cs));
                                assert(cs@ =~= seq![sp]);
                                assert(units_view(out@) =~= pre + flush(cur_view(other)));
                            },
                        }
                    },
                    Block::Literal(sp) => {
                        let taken = cur.take();
                        match taken {
                            Some(Unit::Write(mut ws)) => {
                                let ghost ws0 = ws@;
                                ws.push(WItem::Lit(sp));
                                cur = Some(Unit::Write(ws));
                                assert(ws@ =~= ws0 + seq![WItem::Lit(sp)]);
                            },
                            other => {
                                flush_into(&mut out, other);
                                let mut ws: Vec<WItem> = Vec::new();
                                ws.push(WItem::Lit(sp));
                                cur = Some(Unit::Write(ws));
                                assert(ws@ =~= seq![WItem::Lit(sp)]);
                                assert(units_view(out@) =~= pre + flush(cur_view(other)));
                            },
                        }
                    },
                    Block::Data(k, sp) => {
                        let taken = cur.take();
                        match taken {
                            Some(Unit::Write(mut ws)) => {
                                let ghost ws0 = ws@;
                                ws.push(WItem::Arg(k, sp));
                                cur = Some(Unit::Write(ws));
                                assert(ws@ =~= ws0 + seq![WItem::Arg(k, sp)]);
                            },
                            other => {
                                flush_into(&mut out, other);
                                let mut ws: Vec<WItem> = Vec::new();
                                ws.push(WItem::Arg(k, sp));
                                cur = Some(Unit::Write(ws));
                                assert(ws@ =~= seq![WItem::Arg(k, sp)]);
                                assert(units_view(out@) =~= pre + flush(cur_view(other)));
                            },
                        }
                    },
                    _ => {},
                }
            },
            Item::Enter(sid) => {
                let taken = cur.take();
                flush_into(&mut out, taken);
                out.push(Unit::Enter(sid));
                cur = None;
                assert(units_view(out@) =~= pre + flush(cur_view(taken)) + seq![
                    SpecUnit::Enter(sid),
                ]);
            },
            Item::Leave => {
                let taken = cur.take();
                flush_into(&mut out, taken);
                out.push(Unit::Leave);
                cur = None;
                assert(units_view(out@) =~= pre + flush(cur_view(taken)) + seq![SpecUnit::Leave]);
            },
        }
        i = i + 1;
    }
    let taken = cur.take();
    let ghost pre = units_view(out@);
    flush_into(&mut out, taken);
    assert(units_view(out@) =~= pre + flush(cur_view(taken)));
    out
}

/// Push the pending run, if any.
fn flush_into(out: &mut Vec<Unit>, cur: Option<Unit>)
    ensures
        units_view(final(out)@) == units_view(old(out)@) + flush(cur_view(cur)),
{
    match cur {
        None => {
            assert(units_view(out@) =~= units_view(out@) + flush(cur_view(None::<Unit>)));
        },
        Some(u) => {
            let ghost uv = u@;
            out.push(u);
            assert(units_view(out@) =~= units_view(old(out)@) + seq![uv]);
        },
    }
}

} // verus!

// ---------------------------------------------------------------------------
// Assembly preserves span well-formedness
// ---------------------------------------------------------------------------

use crate::render::{span_ok, units_ok, witems_ok};
use crate::source::Source;

verus! {

/// An input item whose spans resolve against the source list and whose
/// file boundaries name existing sources.
pub open spec fn item_spans_ok(it: Item, srcs: Seq<Source>) -> bool {
    match it {
        Item::Blk(b) => match b {
            Block::Literal(sp) => span_ok(sp, srcs),
            Block::Code(sp) => span_ok(sp, srcs),
            Block::Data(_, sp) => span_ok(sp, srcs),
            Block::Embed(sp) => span_ok(sp, srcs),
            Block::Comment => true,
        },
        Item::Enter(sid) => sid < srcs.len(),
        Item::Leave => true,
    }
}

/// Unit sequences whose file boundaries name existing sources.
pub open spec fn units_enter_ok(us: Seq<SpecUnit>, srcs: Seq<Source>) -> bool {
    forall|i: int|
        0 <= i < us.len() ==> ((#[trigger] us[i]) matches SpecUnit::Enter(sid) ==> sid
            < srcs.len())
}

/// An open run whose spans resolve against the source list.
pub open spec fn cur_ok(cur: Option<SpecUnit>, srcs: Seq<Source>) -> bool {
    match cur {
        None => true,
        Some(SpecUnit::Code(cs)) => forall|j: int| 0 <= j < cs.len() ==> span_ok(#[trigger] cs[j], srcs),
        Some(SpecUnit::Write(ws)) => witems_ok(ws, srcs),
        Some(SpecUnit::Enter(sid)) => sid < srcs.len(),
        Some(SpecUnit::Leave) => true,
    }
}

/// Grouping keeps every span resolvable: assembled units are as
/// well-formed as the items they came from.
pub proof fn lemma_grouped_ok(items: Seq<Item>, i: int, cur: Option<SpecUnit>, srcs: Seq<Source>)
    requires
        0 <= i <= items.len(),
        forall|k: int| i <= k < items.len() ==> item_spans_ok(#[trigger] items[k], srcs),
        cur_ok(cur, srcs),
    ensures
        units_ok(group_from(items, i, cur), srcs),
        units_enter_ok(group_from(items, i, cur), srcs),
    decreases items.len() - i,
{
    if i >= items.len() {
        let us = flush(cur);
        assert forall|k: int| 0 <= k < us.len() implies match #[trigger] us[k] {
            SpecUnit::Code(cs) => forall|j: int| 0 <= j < cs.len() ==> span_ok(#[trigger] cs[j], srcs),
            SpecUnit::Write(ws) => witems_ok(ws, srcs),
            _ => true,
        } by {}
    } else {
        match items[i] {
            Item::Blk(b) => match b {
                Block::Code(sp) => {
                    match cur {
                        Some(SpecUnit::Code(cs)) => {
                            assert forall|j: int| 0 <= j < (cs + seq![sp]).len() implies span_ok(
                                #[trigger] (cs + seq![sp])[j],
                                srcs,
                            ) by {
                                if j < cs.len() {
                                    assert((cs + seq![sp])[j] == cs[j]);
                                }
                            }
                            lemma_grouped_ok(items, i + 1, Some(SpecUnit::Code(cs + seq![sp])), srcs);
                        },
                        _ => {
                            lemma_grouped_ok(items, i + 1, Some(SpecUnit::Code(seq![sp])), srcs);
                            lemma_units_ok_concat(flush(cur), group_from(items, i + 1, Some(SpecUnit::Code(seq![sp]))), srcs);
                        },
                    }
                },
                Block::Literal(sp) => {
                    match cur {
                        Some(SpecUnit::Write(ws)) => {
                            assert(witems_ok(ws + seq![WItem::Lit(sp)], srcs)) by {
                                assert forall|j: int| 0 <= j < (ws + seq![WItem::Lit(sp)]).len() implies match #[trigger] (ws
                                    + seq![WItem::Lit(sp)])[j] {
                                    WItem::Lit(sp2) => span_ok(sp2, srcs),
                                    WItem::Arg(_, sp2) => span_ok(sp2, srcs),
                                } by {
                                    if j < ws.len() {
                                        assert((ws + seq![WItem::Lit(sp)])[j] == ws[j]);
                                    }
                                }
                            }
                            lemma_grouped_ok(items, i + 1, Some(SpecUnit::Write(ws + seq![WItem::Lit(sp)])), srcs);
                        },
                        _ => {
                            lemma_grouped_ok(items, i + 1, Some(SpecUnit::Write(seq![WItem::Lit(sp)])), srcs);
                            lemma_units_ok_concat(flush(cur), group_from(items, i + 1, Some(SpecUnit::Write(seq![WItem::Lit(sp)]))), srcs);
                        },
                    }
                },
                Block::Data(k, sp) => {
                    match cur {
                        Some(SpecUnit::Write(ws)) => {
                            assert(witems_ok(ws + seq![WItem::Arg(k, sp)], srcs)) by {
                                assert forall|j: int| 0 <= j < (ws + seq![WItem::Arg(k, sp)]).len() implies match #[trigger] (ws
                                    + seq![WItem::Arg(k, sp)])[j] {
                                    WItem::Lit(sp2) => span_ok(sp2, srcs),
                                    WItem::Arg(_, sp2) => span_ok(sp2, srcs),
                                } by {
                                    if j < ws.len() {
                                        assert((ws + seq![WItem::Arg(k, sp)])[j] == ws[j]);
                                    }
                                }
                            }
                            lemma_grouped_ok(items, i + 1, Some(SpecUnit::Write(ws + seq![WItem::Arg(k, sp)])), srcs);
                        },
                        _ => {
                            lemma_grouped_ok(items, i + 1, Some(SpecUnit::Write(seq![WItem::Arg(k, sp)])), srcs);
                            lemma_units_ok_concat(flush(cur), group_from(items, i + 1, Some(SpecUnit::Write(seq![WItem::Arg(k, sp)]))), srcs);
                        },
                    }
                },
                _ => {
                    lemma_grouped_ok(items, i + 1, cur, srcs);
                },
            },
            Item::Enter(sid) => {
                lemma_grouped_ok(items, i + 1, None, srcs);
                lemma_units_ok_concat(flush(cur) + seq![SpecUnit::Enter(sid)], group_from(items, i + 1, None), srcs);
                assert forall|k: int| 0 <= k < (flush(cur) + seq![SpecUnit::Enter(sid)]).len() implies match #[trigger] (flush(cur)
                    + seq![SpecUnit::Enter(sid)])[k] {
                    SpecUnit::Code(cs) => forall|j: int| 0 <= j < cs.len() ==> span_ok(#[trigger] cs[j], srcs),
                    SpecUnit::Write(ws) => witems_ok(ws, srcs),
                    _ => true,
                } by {
                    if k < flush(cur).len() {
                        assert((flush(cur) + seq![SpecUnit::Enter(sid)])[k] == flush(cur)[k]);
                    }
                }
            },
            Item::Leave => {
                lemma_grouped_ok(items, i + 1, None, srcs);
                lemma_units_ok_concat(flush(cur) + seq![SpecUnit::Leave], group_from(items, i + 1, None), srcs);
                assert forall|k: int| 0 <= k < (flush(cur) + seq![SpecUnit::Leave]).len() implies match #[trigger] (flush(cur)
                    + seq![SpecUnit::Leave])[k] {
                    SpecUnit::Code(cs) => forall|j: int| 0 <= j < cs.len() ==> span_ok(#[trigger] cs[j], srcs),
                    SpecUnit::Write(ws) => witems_ok(ws, srcs),
                    _ => true,
                } by {
                    if k < flush(cur).len() {
                        assert((flush(cur) + seq![SpecUnit::Leave])[k] == flush(cur)[k]);
                    }
                }
            },
        }
    }
}

/// Well-formedness joins over concatenation of unit sequences.
proof fn lemma_units_ok_concat(a: Seq<SpecUnit>, b: Seq<SpecUnit>, srcs: Seq<Source>)
    requires
        units_ok(a, srcs),
        units_enter_ok(a, srcs),
        units_ok(b, srcs),
        units_enter_ok(b, srcs),
    ensures
        units_ok(a + b, srcs),
        units_enter_ok(a + b, srcs),
{
    assert forall|k: int| 0 <= k < (a + b).len() implies match #[trigger] (a + b)[k] {
        SpecUnit::Code(cs) => forall|j: int| 0 <= j < cs.len() ==> span_ok(#[trigger] cs[j], srcs),
        SpecUnit::Write(ws) => witems_ok(ws, srcs),
        _ => true,
    } by {
        if k < a.len() {
            assert((a + b)[k] == a[k]);
        } else {
            assert((a + b)[k] == b[k - a.len()]);
        }
    }
    assert forall|k: int| 0 <= k < (a + b).len() implies ((#[trigger] (a + b)[k]) matches SpecUnit::Enter(sid)
        ==> sid < srcs.len()) by {
        if k < a.len() {
            assert((a + b)[k] == a[k]);
        } else {
            assert((a + b)[k] == b[k - a.len()]);
        }
    }
}

} // verus!
