//! Compilation of one template with its embedded files, over an
//! in-memory file table: each file is stripped, scanned, and its blocks
//! spliced in place of the embed blocks that name it, depth first, with
//! an explicit in-progress stack that fails fast on a cycle.

use vstd::prelude::*;

use crate::assemble::Item;
use crate::path::{eq_bytes, resolve_path, resolved};
use crate::scan::{scan, scan_spec, Block, ParseError};
use crate::source::Source;
use crate::strip::{apply_strip, stripped, Strip};

verus! {

/// One file handed to the compiler.
pub struct SourceFile {
    /// The root-relative path of the file.
    pub path: Vec<u8>,
    /// Its raw bytes.
    pub text: Vec<u8>,
}

/// The mathematical shape of a [`SourceFile`].
pub ghost struct SpecFile {
    /// The path.
    pub path: Seq<u8>,
    /// The raw bytes.
    pub text: Seq<u8>,
}

impl View for SourceFile {
    type V = SpecFile;

    open spec fn view(&self) -> SpecFile {
        SpecFile { path: self.path@, text: self.text@ }
    }
}

/// The mathematical shape of a [`Source`].
pub ghost struct SpecSource {
    /// The scanned text.
    pub text: Seq<u8>,
    /// Where it came from.
    pub path: Option<Seq<u8>>,
}

impl View for Source {
    type V = SpecSource;

    open spec fn view(&self) -> SpecSource {
        SpecSource {
            text: self.text@,
            path: match self.path {
                Some(ref p) => Some(p@),
                None => None,
            },
        }
    }
}

/// The views of a file table.
pub open spec fn files_view(fs: Seq<SourceFile>) -> Seq<SpecFile> {
    fs.map_values(|f: SourceFile| f@)
}

/// The views of a source list.
pub open spec fn srcs_view(ss: Seq<Source>) -> Seq<SpecSource> {
    ss.map_values(|s: Source| s@)
}

/// Why a compilation failed.
pub enum CompileError {
    /// A template failed to scan.
    Parse(ParseError),
    /// An embed names a path that the file table does not hold; the
    /// caller may load it and try again.
    Missing(Vec<u8>),
    /// A file embeds itself, directly or through other files.
    Cycle(Vec<u8>),
}

/// The mathematical shape of a [`CompileError`].
pub ghost enum SpecCompileError {
    /// A scan failure.
    Parse(ParseError),
    /// A path outside the table.
    Missing(Seq<u8>),
    /// An embed cycle.
    Cycle(Seq<u8>),
}

impl View for CompileError {
    type V = SpecCompileError;

    open spec fn view(&self) -> SpecCompileError {
        match self {
            CompileError::Parse(e) => SpecCompileError::Parse(*e),
            CompileError::Missing(p) => SpecCompileError::Missing(p@),
            CompileError::Cycle(p) => SpecCompileError::Cycle(p@),
        }
    }
}

/// The index of the first file with the given path, from `i` on.
pub open spec fn file_at(files: Seq<SpecFile>, path: Seq<u8>, i: int) -> Option<int>
    decreases files.len() - i,
    when 0 <= i <= files.len()
{
    if i >= files.len() {
        None
    } else if files[i].path == path {
        Some(i)
    } else {
        file_at(files, path, i + 1)
    }
}

/// Whether the in-progress stack holds the path.
pub open spec fn stack_has(stack: Seq<Seq<u8>>, path: Seq<u8>, i: int) -> bool
    decreases stack.len() - i,
    when 0 <= i <= stack.len()
{
    if i >= stack.len() {
        false
    } else {
        stack[i] == path || stack_has(stack, path, i + 1)
    }
}

/// The compilation of the file at `path`: its stripped text becomes a new
/// source, its blocks are compiled with it on the in-progress stack, and
/// the whole contribution is wrapped in file boundary items.
pub open spec fn compile_file(
    files: Seq<SpecFile>,
    path: Seq<u8>,
    stack: Seq<Seq<u8>>,
    fuel: nat,
    mode: Strip,
    srcs: Seq<SpecSource>,
) -> Result<(Seq<SpecSource>, Seq<Item>), SpecCompileError>
    decreases fuel, 1int, 0int,
{
    if fuel == 0 || stack_has(stack, path, 0) {
        Err(SpecCompileError::Cycle(path))
    } else {
        match file_at(files, path, 0) {
            None => Err(SpecCompileError::Missing(path)),
            Some(fi) => {
                let text = stripped(files[fi].text, mode);
                let sid = srcs.len() as usize;
                let srcs1 = srcs + seq![SpecSource { text, path: Some(path) }];
                match scan_spec(text, sid) {
                    Err(e) => Err(SpecCompileError::Parse(e)),
                    Ok(blocks) => match compile_blocks(
                        files,
                        path,
                        text,
                        blocks,
                        0,
                        stack + seq![path],
                        fuel,
                        mode,
                        srcs1,
                    ) {
                        Err(e) => Err(e),
                        Ok(p) => Ok(
                            (p.0, seq![Item::Enter(sid)] + p.1 + seq![Item::Leave]),
                        ),
                    },
                }
            },
        }
    }
}

/// The compilation of a block list: embed blocks become the compiled
/// contribution of the file they name; every other block stands as an
/// item.
pub open spec fn compile_blocks(
    files: Seq<SpecFile>,
    cur: Seq<u8>,
    text: Seq<u8>,
    blocks: Seq<Block>,
    bi: int,
    stack: Seq<Seq<u8>>,
    fuel: nat,
    mode: Strip,
    srcs: Seq<SpecSource>,
) -> Result<(Seq<SpecSource>, Seq<Item>), SpecCompileError>
    decreases fuel, 0int, blocks.len() - bi,
    when 0 <= bi <= blocks.len() && fuel > 0
{
    if bi >= blocks.len() {
        Ok((srcs, Seq::empty()))
    } else {
        match blocks[bi] {
            Block::Embed(sp) => {
                let p2 = resolved(cur, sp.bytes(text));
                match compile_file(files, p2, stack, (fuel - 1) as nat, mode, srcs) {
                    Err(e) => Err(e),
                    Ok(sub) => match compile_blocks(
                        files,
                        cur,
                        text,
                        blocks,
                        bi + 1,
                        stack,
                        fuel,
                        mode,
                        sub.0,
                    ) {
                        Err(e) => Err(e),
                        Ok(rest) => Ok((rest.0, sub.1 + rest.1)),
                    },
                }
            },
            b => match compile_blocks(files, cur, text, blocks, bi + 1, stack, fuel, mode, srcs) {
                Err(e) => Err(e),
                Ok(rest) => Ok((rest.0, seq![Item::Blk(b)] + rest.1)),
            },
        }
    }
}

/// The compilation of a whole template: enough fuel for every file to
/// stand once on the in-progress stack.
pub open spec fn compile_spec(files: Seq<SpecFile>, main: Seq<u8>, mode: Strip) -> Result<
    (Seq<SpecSource>, Seq<Item>),
    SpecCompileError,
> {
    compile_file(files, main, Seq::empty(), (files.len() + 1) as nat, mode, Seq::empty())
}

/// An item whose spans can be resolved against the source list.
pub open spec fn item_ok(it: Item, ss: Seq<SpecSource>) -> bool {
    match it {
        Item::Blk(b) => match b {
            Block::Literal(sp) => sp.src < ss.len() && sp.start <= sp.end && sp.end <= ss[sp.src as int].text.len(),
            Block::Code(sp) => sp.src < ss.len() && sp.start <= sp.end && sp.end <= ss[sp.src as int].text.len(),
            Block::Data(_, sp) => sp.src < ss.len() && sp.start <= sp.end && sp.end <= ss[sp.src as int].text.len(),
            Block::Embed(sp) => sp.src < ss.len() && sp.start <= sp.end && sp.end <= ss[sp.src as int].text.len(),
            Block::Comment => true,
        },
        Item::Enter(sid) => sid < ss.len(),
        Item::Leave => true,
    }
}

/// The index of the first file with the given path.
fn find_file(files: &Vec<SourceFile>, path: &[u8]) -> (r: Option<usize>)
    ensures
        match r {
            Some(i) => file_at(files_view(files@), path@, 0) == Some(i as int) && i
                < files@.len(),
            None => file_at(files_view(files@), path@, 0) is None,
        },
{
    let ghost fv = files_view(files@);
    let n = files.len();
    let mut i: usize = 0;
    while i < n
        invariant
            i <= n,
            n == files@.len(),
            fv == files_view(files@),
            file_at(fv, path@, 0) == file_at(fv, path@, i as int),
        decreases n - i,
    {
        assert(fv[i as int] == files@[i as int]@);
        if eq_bytes(files[i].path.as_slice(), path) {
            return Some(i);
        }
        i = i + 1;
    }
    None
}

/// Whether the in-progress stack holds the path.
fn stack_contains(stack: &Vec<Vec<u8>>, path: &[u8]) -> (r: bool)
    ensures
        r == stack_has(crate::path::segs_view(stack@), path@, 0),
{
    let ghost sv = crate::path::segs_view(stack@);
    let n = stack.len();
    let mut i: usize = 0;
    while i < n
        invariant
            i <= n,
            n == stack@.len(),
            sv == crate::path::segs_view(stack@),
            stack_has(sv, path@, 0) == stack_has(sv, path@, i as int),
        decreases n - i,
    {
        assert(sv[i as int] == stack@[i as int]@);
        if eq_bytes(stack[i].as_slice(), path) {
            return true;
        }
        i = i + 1;
    }
    false
}

/// Compile the file at `path` into the accumulators.
fn compile_file_exec(
    files: &Vec<SourceFile>,
    path: Vec<u8>,
    stack: &mut Vec<Vec<u8>>,
    fuel: usize,
    mode: Strip,
    srcs: &mut Vec<Source>,
    items: &mut Vec<Item>,
) -> (r: Result<(), CompileError>)
    requires
        forall|k: int|
            0 <= k < old(items)@.len() ==> item_ok(
                #[trigger] old(items)@[k],
                srcs_view(old(srcs)@),
            ),
    ensures
        match r {
            Ok(()) => compile_file(
                files_view(files@),
                path@,
                crate::path::segs_view(old(stack)@),
                fuel as nat,
                mode,
                srcs_view(old(srcs)@),
            ) matches Ok(p) && srcs_view(final(srcs)@) == p.0 && final(items)@ == old(items)@
                + p.1 && final(stack)@ == old(stack)@ && final(srcs)@.len() >= old(srcs)@.len()
                && (forall|k: int|
                0 <= k < old(srcs)@.len() ==> final(srcs)@[k] == #[trigger] old(srcs)@[k]) && (
            forall|k: int|
                0 <= k < final(items)@.len() ==> item_ok(
                    #[trigger] final(items)@[k],
                    srcs_view(final(srcs)@),
                )),
            Err(e) => compile_file(
                files_view(files@),
                path@,
                crate::path::segs_view(old(stack)@),
                fuel as nat,
                mode,
                srcs_view(old(srcs)@),
            ) == Err::<(Seq<SpecSource>, Seq<Item>), SpecCompileError>(e@),
        },
    decreases fuel, 1int, 0int,
{
    let ghost fv = files_view(files@);
    let ghost stack0 = crate::path::segs_view(stack@);
    let ghost srcs0 = srcs_view(srcs@);
    if fuel == 0 || stack_contains(stack, path.as_slice()) {
        return Err(CompileError::Cycle(path));
    }
    let fi = match find_file(files, path.as_slice()) {
        None => {
            return Err(CompileError::Missing(path));
        },
        Some(fi) => fi,
    };
    assert(fv[fi as int] == files@[fi as int]@);
    let text = apply_strip(files[fi].text.as_slice(), mode);
    let sid = srcs.len();
    let blocks = match scan(text.as_slice(), sid) {
        Err(e) => {
            return Err(CompileError::Parse(e));
        },
        Ok(blocks) => blocks,
    };
    let ghost tv = text@;
    let ghost pv = path@;
    let mut path_copy: Vec<u8> = Vec::new();
    crate::render::append_bytes(&mut path_copy, path.as_slice());
    srcs.push(Source { text, path: Some(path_copy) });
    let ghost srcs1 = srcs_view(srcs@);
    proof {
        assert(srcs1 =~= srcs0 + seq![SpecSource { text: tv, path: Some(pv) }]);
        assert(srcs1[srcs1.len() - 1].text == tv);
    }
    stack.push(path);
    let ghost stack1 = crate::path::segs_view(stack@);
    proof {
        assert(stack1 =~= stack0 + seq![pv]);
        assert(stack1[stack1.len() - 1] == pv);
    }
    items.push(Item::Enter(sid));
    assert(stack@[stack@.len() - 1]@ == pv);
    proof {
        assert forall|k: int| 0 <= k < items@.len() implies item_ok(
            #[trigger] items@[k],
            srcs_view(srcs@),
        ) by {
            if k < old(items)@.len() {
                assert(items@[k] == old(items)@[k]);
                lemma_item_ok_grow(items@[k], srcs0, srcs1);
            }
        }
    }
    let ghost srcs_at_push = srcs@;
    let r = compile_blocks_exec(
        files,
        &blocks,
        0,
        Ghost(tv),
        Ghost(sid),
        stack,
        fuel,
        mode,
        srcs,
        items,
    );
    match r {
        Err(e) => {
            return Err(e);
        },
        Ok(()) => {},
    }
    let ghost items1_post = items@;
    let _popped = stack.pop();
    items.push(Item::Leave);
    proof {
        assert(stack@ =~= old(stack)@);
        assert(srcs0.len() == old(srcs)@.len());
        assert(sid == srcs0.len());
        let res = compile_file(fv, pv, stack0, fuel as nat, mode, srcs0);
        assert(fuel != 0 && !stack_has(stack0, pv, 0));
        assert(file_at(fv, pv, 0) == Some(fi as int));
        assert(stripped(fv[fi as int].text, mode) == tv);
        assert(scan_spec(tv, sid) == Ok::<Seq<Block>, ParseError>(blocks@));
        assert(stack0 + seq![pv] == stack1);
        let inner = compile_blocks(fv, pv, tv, blocks@, 0, stack1, fuel as nat, mode, srcs1);
        assert(inner is Ok);
        let sub = inner->Ok_0;
        assert(res == Ok::<(Seq<SpecSource>, Seq<Item>), SpecCompileError>(
            (sub.0, seq![Item::Enter(sid)] + sub.1 + seq![Item::Leave]),
        ));
        assert(srcs_view(srcs@) == sub.0);
        assert(items@ =~= old(items)@ + (seq![Item::Enter(sid)] + sub.1 + seq![Item::Leave]));
        assert forall|k: int| 0 <= k < items@.len() implies item_ok(
            #[trigger] items@[k],
            srcs_view(srcs@),
        ) by {
            if k < items@.len() - 1 {
                assert(items@[k] == items1_post[k]);
            } else {
                assert(items@[k] == Item::Leave);
            }
        }
        assert forall|k: int| 0 <= k < old(srcs)@.len() implies srcs@[k] == #[trigger] old(
            srcs,
        )@[k] by {
            assert(srcs_at_push[k] == old(srcs)@[k]);
        }
    }
    Ok(())
}

/// Spans stay resolvable when the source list grows.
proof fn lemma_item_ok_grow(it: Item, a: Seq<SpecSource>, b: Seq<SpecSource>)
    requires
        item_ok(it, a),
        a.len() <= b.len(),
        forall|k: int| 0 <= k < a.len() ==> a[k] == b[k],
    ensures
        item_ok(it, b),
{
}

/// Walk the scanned blocks from `bi` on, appending items and compiling
/// embedded files in place.
fn compile_blocks_exec(
    files: &Vec<SourceFile>,
    blocks: &Vec<Block>,
    bi: usize,
    Ghost(tv): Ghost<Seq<u8>>,
    Ghost(sid0): Ghost<usize>,
    stack: &mut Vec<Vec<u8>>,
    fuel: usize,
    mode: Strip,
    srcs: &mut Vec<Source>,
    items: &mut Vec<Item>,
) -> (r: Result<(), CompileError>)
    requires
        fuel > 0,
        bi <= blocks@.len(),
        old(stack)@.len() > 0,
        sid0 < old(srcs)@.len(),
        srcs_view(old(srcs)@)[sid0 as int].text == tv,
        forall|k: int|
            0 <= k < blocks@.len() ==> crate::scan::block_wf(
                #[trigger] blocks@[k],
                sid0,
                tv.len() as int,
            ),
        forall|k: int|
            0 <= k < old(items)@.len() ==> item_ok(
                #[trigger] old(items)@[k],
                srcs_view(old(srcs)@),
            ),
    ensures
        match r {
            Ok(()) => compile_blocks(
                files_view(files@),
                old(stack)@[old(stack)@.len() - 1]@,
                tv,
                blocks@,
                bi as int,
                crate::path::segs_view(old(stack)@),
                fuel as nat,
                mode,
                srcs_view(old(srcs)@),
            ) matches Ok(p) && srcs_view(final(srcs)@) == p.0 && final(items)@ == old(items)@
                + p.1 && final(stack)@ == old(stack)@ && final(srcs)@.len() >= old(srcs)@.len()
                && (forall|k: int|
                0 <= k < old(srcs)@.len() ==> final(srcs)@[k] == #[trigger] old(srcs)@[k]) && (
            forall|k: int|
                0 <= k < final(items)@.len() ==> item_ok(
                    #[trigger] final(items)@[k],
                    srcs_view(final(srcs)@),
                )),
            Err(e) => compile_blocks(
                files_view(files@),
                old(stack)@[old(stack)@.len() - 1]@,
                tv,
                blocks@,
                bi as int,
                crate::path::segs_view(old(stack)@),
                fuel as nat,
                mode,
                srcs_view(old(srcs)@),
            ) == Err::<(Seq<SpecSource>, Seq<Item>), SpecCompileError>(e@),
        },
    decreases fuel, 0int, blocks@.len() - bi,
{
    let ghost fv = files_view(files@);
    let ghost cur = stack@[stack@.len() - 1]@;
    let ghost sv = crate::path::segs_view(stack@);
    let ghost srcs0 = srcs_view(srcs@);
    if bi >= blocks.len() {
        assert(items@ =~= old(items)@ + Seq::<Item>::empty());
        return Ok(());
    }
    let b = blocks[bi];
    match b {
        Block::Embed(sp) => {
            let embed_text = {
                let src_now: &Source = &srcs[sp.src];
                let sl = sp.slice_of(src_now.text.as_slice());
                let mut v: Vec<u8> = Vec::new();
                crate::render::append_bytes(&mut v, sl);
                v
            };
            proof {
                assert(srcs@[sid0 as int]@.text == tv);
                assert(embed_text@ == sp.bytes(tv));
            }
            let p2 = {
                let cur_path: &Vec<u8> = &stack[stack.len() - 1];
                resolve_path(cur_path.as_slice(), embed_text.as_slice())
            };
            assert(p2@ == resolved(cur, sp.bytes(tv)));
            let rr = compile_file_exec(files, p2, stack, fuel - 1, mode, srcs, items);
            match rr {
                Err(e) => {
                    return Err(e);
                },
                Ok(()) => {},
            }
            let ghost sub = compile_file(fv, resolved(cur, sp.bytes(tv)), sv, (fuel - 1) as nat, mode, srcs0)->Ok_0;
            let rr2 = compile_blocks_exec(
                files,
                blocks,
                bi + 1,
                Ghost(tv),
                Ghost(sid0),
                stack,
                fuel,
                mode,
                srcs,
                items,
            );
            match rr2 {
                Err(e) => {
                    return Err(e);
                },
                Ok(()) => {},
            }
            proof {
                let rest = compile_blocks(fv, cur, tv, blocks@, bi + 1, sv, fuel as nat, mode, sub.0)->Ok_0;
                assert(items@ =~= old(items)@ + (sub.1 + rest.1));
            }
            Ok(())
        },
        other => {
            items.push(Item::Blk(other));
            proof {
                assert(crate::scan::block_wf(blocks@[bi as int], sid0, tv.len() as int));
                assert(item_ok(Item::Blk(blocks@[bi as int]), srcs_view(srcs@)));
            }
            let rr2 = compile_blocks_exec(
                files,
                blocks,
                bi + 1,
                Ghost(tv),
                Ghost(sid0),
                stack,
                fuel,
                mode,
                srcs,
                items,
            );
            match rr2 {
                Err(e) => {
                    return Err(e);
                },
                Ok(()) => {},
            }
            proof {
                let rest = compile_blocks(fv, cur, tv, blocks@, bi + 1, sv, fuel as nat, mode, srcs0)->Ok_0;
                assert(items@ =~= old(items)@ + (seq![Item::Blk(blocks@[bi as int])] + rest.1));
            }
            Ok(())
        },
    }
}

/// Compile a whole template from an in-memory file table.
///
/// On success the result holds every source that was visited, in visit
/// order, and the item stream with all embeds spliced in; an embed whose
/// file the table lacks gives back the missing path, and an embed cycle
/// is refused.
pub fn compile(files: &Vec<SourceFile>, main: &[u8], mode: Strip) -> (r: Result<
    (Vec<Source>, Vec<Item>),
    CompileError,
>)
    requires
        files@.len() < usize::MAX,
    ensures
        match r {
            Ok(p) => compile_spec(files_view(files@), main@, mode) matches Ok(q) && srcs_view(
                p.0@,
            ) == q.0 && p.1@ == q.1 && (forall|k: int|
                0 <= k < p.1@.len() ==> item_ok(#[trigger] p.1@[k], srcs_view(p.0@))),
            Err(e) => compile_spec(files_view(files@), main@, mode) == Err::<
                (Seq<SpecSource>, Seq<Item>),
                SpecCompileError,
            >(e@),
        },
{
    let mut stack: Vec<Vec<u8>> = Vec::new();
    let mut srcs: Vec<Source> = Vec::new();
    let mut items: Vec<Item> = Vec::new();
    let mut main_v: Vec<u8> = Vec::new();
    crate::render::append_bytes(&mut main_v, main);
    let fuel = files.len() + 1;
    proof {
        assert(crate::path::segs_view(Seq::<Vec<u8>>::empty()) =~= Seq::<Seq<u8>>::empty());
        assert(srcs_view(Seq::<Source>::empty()) =~= Seq::<SpecSource>::empty());
    }
    let r = compile_file_exec(files, main_v, &mut stack, fuel, mode, &mut srcs, &mut items);
    match r {
        Ok(()) => Ok((srcs, items)),
        Err(e) => Err(e),
    }
}

} // verus!

verus! {

/// Compile a whole template and fold it into emission units, ready for
/// the generator and for rendering: every span of the result is proven
/// to resolve against the returned sources.
pub fn compile_template(files: &Vec<SourceFile>, main: &[u8], mode: Strip) -> (r: Result<
    (Vec<Source>, Vec<crate::assemble::Unit>),
    CompileError,
>)
    requires
        files@.len() < usize::MAX,
    ensures
        match r {
            Ok(p) => compile_spec(files_view(files@), main@, mode) matches Ok(q) && srcs_view(
                p.0@,
            ) == q.0 && crate::assemble::units_view(p.1@) == crate::assemble::grouped(q.1)
                && crate::render::units_ok(crate::assemble::units_view(p.1@), p.0@)
                && crate::assemble::units_enter_ok(crate::assemble::units_view(p.1@), p.0@),
            Err(e) => compile_spec(files_view(files@), main@, mode) == Err::<
                (Seq<SpecSource>, Seq<Item>),
                SpecCompileError,
            >(e@),
        },
{
    match compile(files, main, mode) {
        Err(e) => Err(e),
        Ok((srcs, items)) => {
            let units = crate::assemble::assemble(&items);
            proof {
                let sv = srcs_view(srcs@);
                assert forall|k: int| 0 <= k < items@.len() implies crate::assemble::item_spans_ok(
                    #[trigger] items@[k],
                    srcs@,
                ) by {
                    assert(item_ok(items@[k], sv));
                    match items@[k] {
                        Item::Blk(b) => {
                            match b {
                                Block::Literal(sp) => {
                                    assert(sv[sp.src as int] == srcs@[sp.src as int]@);
                                },
                                Block::Code(sp) => {
                                    assert(sv[sp.src as int] == srcs@[sp.src as int]@);
                                },
                                Block::Data(_, sp) => {
                                    assert(sv[sp.src as int] == srcs@[sp.src as int]@);
                                },
                                Block::Embed(sp) => {
                                    assert(sv[sp.src as int] == srcs@[sp.src as int]@);
                                },
                                Block::Comment => {},
                            }
                        },
                        _ => {},
                    }
                }
                crate::assemble::lemma_grouped_ok(items@, 0, None, srcs@);
            }
            Ok((srcs, units))
        },
    }
}

} // verus!
