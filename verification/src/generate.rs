//! The code generator: it renders the emission units into the text of a
//! program that implements rendering into a generic sink, each unit
//! preceded by a machine-readable position comment, and names the cached
//! artifact by a content hash.

use vstd::prelude::*;

use crate::assemble::{units_view, SpecUnit, Unit, WItem};
use crate::chars::{BSOL, DIG0, DOT, LBRACE, LCA, NL, QUOT, RBRACE, TAB, CR};
use crate::fast_integer::{dec_u, format_u64};
use crate::render::append_bytes;
use crate::scan::DataKind;
use crate::source::{column_at, column_of, line_at, line_of, Source};
use vstd::string::StringSliceAdditionalSpecFns;

verus! {

/// A lowercase hexadecimal digit.
pub open spec fn hex_digit(n: int) -> u8
    recommends
        0 <= n < 16,
{
    if n < 10 {
        (DIG0 + n) as u8
    } else {
        (LCA + n - 10) as u8
    }
}

/// The lowercase hexadecimal encoding of a byte string: two digits per
/// byte, high nibble first.
pub open spec fn hex_of(s: Seq<u8>) -> Seq<u8>
    decreases s.len(),
{
    if s.len() == 0 {
        Seq::empty()
    } else {
        seq![hex_digit(s[0] as int / 16), hex_digit(s[0] as int % 16)] + hex_of(s.skip(1))
    }
}

/// The 64-byte digest that the outside hash function computes for a byte
/// string; a fixed function of its input alone.
pub uninterp spec fn blake2b_of(s: Seq<u8>) -> Seq<u8>;

/// Relies on `blake2::Blake2b512` through the `Digest` trait: the
/// 64-byte digest depends on the hashed bytes alone.
#[verifier::external_body]
fn blake2b512(data: &[u8]) -> (r: Vec<u8>)
    ensures
        r@ == blake2b_of(data@),
        r@.len() == 64,
{
    <blake2::Blake2b512 as blake2::Digest>::digest(data).to_vec()
}

/// Relies on `hex::encode`: each byte becomes its two lowercase
/// hexadecimal digits, high nibble first.
#[verifier::external_body]
fn hex_encode(data: &[u8]) -> (r: Vec<u8>)
    ensures
        r@ == hex_of(data@),
{
    hex::encode(data).into_bytes()
}

/// The cache name of a generated program: the hexadecimal digest of its
/// text with the host-source suffix.
pub open spec fn artifact_name_spec(content: Seq<u8>) -> Seq<u8> {
    hex_of(blake2b_of(content)) + seq![DOT, 114u8, 115u8]
}

/// The content-addressed cache name for a generated program.
pub fn artifact_name(content: &[u8]) -> (r: Vec<u8>)
    ensures
        r@ == artifact_name_spec(content@),
{
    let digest = blake2b512(content);
    let mut out = hex_encode(digest.as_slice());
    out.push(DOT);
    out.push(114);
    out.push(115);
    assert(out@ =~= artifact_name_spec(content@));
    out
}

/// Two templates whose generated programs are textually identical are
/// cached under one and the same artifact name.
pub proof fn lemma_cache_name_agrees(c1: Seq<u8>, c2: Seq<u8>)
    requires
        c1 == c2,
    ensures
        artifact_name_spec(c1) == artifact_name_spec(c2),
{
}

/// What one byte contributes inside a generated string literal.
pub open spec fn lit_byte(b: u8) -> Seq<u8> {
    if b == QUOT {
        seq![BSOL, QUOT]
    } else if b == BSOL {
        seq![BSOL, BSOL]
    } else if b == NL {
        seq![BSOL, 110u8]
    } else if b == CR {
        seq![BSOL, 114u8]
    } else if b == TAB {
        seq![BSOL, 116u8]
    } else if b < 32 || b == 127 {
        seq![BSOL, 120u8, hex_digit(b as int / 16), hex_digit(b as int % 16)]
    } else {
        seq![b]
    }
}

/// The generated string-literal form of a byte string.
pub open spec fn rust_lit(s: Seq<u8>) -> Seq<u8>
    decreases s.len(),
{
    if s.len() == 0 {
        Seq::empty()
    } else {
        lit_byte(s[0]) + rust_lit(s.skip(1))
    }
}

/// What one byte contributes inside a synthesized format template:
/// braces double, and the string-literal escapes apply.
pub open spec fn tpl_byte(b: u8) -> Seq<u8> {
    if b == LBRACE {
        seq![LBRACE, LBRACE]
    } else if b == RBRACE {
        seq![RBRACE, RBRACE]
    } else {
        lit_byte(b)
    }
}

/// The format-template form of a literal fragment.
pub open spec fn tpl_lit(s: Seq<u8>) -> Seq<u8>
    decreases s.len(),
{
    if s.len() == 0 {
        Seq::empty()
    } else {
        tpl_byte(s[0]) + tpl_lit(s.skip(1))
    }
}

proof fn lemma_rust_lit_snoc(s: Seq<u8>, b: u8)
    ensures
        rust_lit(s + seq![b]) == rust_lit(s) + lit_byte(b),
    decreases s.len(),
{
    if s.len() == 0 {
        assert((s + seq![b])[0] == b);
        assert((s + seq![b]).skip(1) =~= Seq::<u8>::empty());
        assert(rust_lit((s + seq![b]).skip(1)) == Seq::<u8>::empty());
        assert(rust_lit(s) == Seq::<u8>::empty());
        assert(rust_lit(s + seq![b]) =~= rust_lit(s) + lit_byte(b));
    } else {
        lemma_rust_lit_snoc(s.skip(1), b);
        assert((s + seq![b])[0] == s[0]);
        assert((s + seq![b]).skip(1) =~= s.skip(1) + seq![b]);
        assert(rust_lit(s + seq![b]) =~= rust_lit(s) + lit_byte(b));
    }
}

proof fn lemma_tpl_lit_snoc(s: Seq<u8>, b: u8)
    ensures
        tpl_lit(s + seq![b]) == tpl_lit(s) + tpl_byte(b),
    decreases s.len(),
{
    if s.len() == 0 {
        assert((s + seq![b])[0] == b);
        assert((s + seq![b]).skip(1) =~= Seq::<u8>::empty());
        assert(tpl_lit((s + seq![b]).skip(1)) == Seq::<u8>::empty());
        assert(tpl_lit(s) == Seq::<u8>::empty());
        assert(tpl_lit(s + seq![b]) =~= tpl_lit(s) + tpl_byte(b));
    } else {
        lemma_tpl_lit_snoc(s.skip(1), b);
        assert((s + seq![b])[0] == s[0]);
        assert((s + seq![b]).skip(1) =~= s.skip(1) + seq![b]);
        assert(tpl_lit(s + seq![b]) =~= tpl_lit(s) + tpl_byte(b));
    }
}

/// Append one literal-escape contribution.
fn push_lit_byte(out: &mut Vec<u8>, b: u8)
    ensures
        final(out)@ == old(out)@ + lit_byte(b),
{
    if b == QUOT {
        out.push(BSOL);
        out.push(QUOT);
    } else if b == BSOL {
        out.push(BSOL);
        out.push(BSOL);
    } else if b == NL {
        out.push(BSOL);
        out.push(110);
    } else if b == CR {
        out.push(BSOL);
        out.push(114);
    } else if b == TAB {
        out.push(BSOL);
        out.push(116);
    } else if b < 32 || b == 127 {
        out.push(BSOL);
        out.push(120);
        let hi = b / 16;
        let lo = b % 16;
        out.push(
            if hi < 10 {
                DIG0 + hi
            } else {
                LCA + (hi - 10)
            },
        );
        out.push(
            if lo < 10 {
                DIG0 + lo
            } else {
                LCA + (lo - 10)
            },
        );
    } else {
        out.push(b);
    }
    assert(out@ =~= old(out)@ + lit_byte(b));
}

/// Append the string-literal form of `s`.
pub fn push_rust_lit(out: &mut Vec<u8>, s: &[u8])
    ensures
        final(out)@ == old(out)@ + rust_lit(s@),
{
    let len = s.len();
    let mut i: usize = 0;
    assert(s@.take(0int) =~= Seq::<u8>::empty());
    while i < len
        invariant
            i <= len,
            len == s@.len(),
            out@ == old(out)@ + rust_lit(s@.take(i as int)),
        decreases len - i,
    {
        push_lit_byte(out, s[i]);
        proof {
            lemma_rust_lit_snoc(s@.take(i as int), s@[i as int]);
            assert(s@.take(i + 1) =~= s@.take(i as int) + seq![s@[i as int]]);
        }
        i = i + 1;
    }
    assert(s@.take(len as int) =~= s@);
}

/// Append the format-template form of `s`.
fn push_tpl_lit(out: &mut Vec<u8>, s: &[u8])
    ensures
        final(out)@ == old(out)@ + tpl_lit(s@),
{
    let len = s.len();
    let mut i: usize = 0;
    assert(s@.take(0int) =~= Seq::<u8>::empty());
    while i < len
        invariant
            i <= len,
            len == s@.len(),
            out@ == old(out)@ + tpl_lit(s@.take(i as int)),
        decreases len - i,
    {
        let b = s[i];
        if b == LBRACE {
            out.push(LBRACE);
            out.push(LBRACE);
            assert(out@ =~= old(out)@ + tpl_lit(s@.take(i as int)) + tpl_byte(s@[i as int]));
        } else if b == RBRACE {
            out.push(RBRACE);
            out.push(RBRACE);
            assert(out@ =~= old(out)@ + tpl_lit(s@.take(i as int)) + tpl_byte(s@[i as int]));
        } else {
            push_lit_byte(out, b);
        }
        proof {
            lemma_tpl_lit_snoc(s@.take(i as int), s@[i as int]);
            assert(s@.take(i + 1) =~= s@.take(i as int) + seq![s@[i as int]]);
        }
        i = i + 1;
    }
    assert(s@.take(len as int) =~= s@);
}

/// Append the text of a `&str` fragment.
pub fn push_str_frag(out: &mut Vec<u8>, s: &str)
    ensures
        final(out)@ == old(out)@ + s.spec_bytes(),
{
    append_bytes(out, s.as_bytes());
}

/// Append the decimal form of a machine integer.
pub fn push_dec(out: &mut Vec<u8>, n: usize)
    ensures
        final(out)@ == old(out)@ + dec_u(n as nat),
{
    let d = format_u64(n as u64);
    append_bytes(out, d.as_slice());
}

} // verus!

verus! {

/// The bytes of a source's path, or a placeholder when it has none.
pub open spec fn path_bytes(srcs: Seq<Source>, sid: int) -> Seq<u8> {
    match srcs[sid].path {
        Some(p) => p@,
        None => "??".spec_bytes(),
    }
}

/// The machine-readable position comment that precedes a unit or
/// argument: file, byte offset, 1-based row and column.
pub open spec fn addr_of(srcs: Seq<Source>, sp: crate::source::Span) -> Seq<u8> {
    let text = crate::render::text_of(srcs, sp.src as int);
    "/* #[nate::addr(path=\"".spec_bytes() + rust_lit(path_bytes(srcs, sp.src as int))
        + "\", offset=".spec_bytes() + dec_u(sp.start as nat) + ", row=".spec_bytes() + dec_u(
        line_at(text, sp.start as int) as nat,
    ) + ", col=".spec_bytes() + dec_u(column_at(text, sp.start as int) as nat)
        + ")] */\n".spec_bytes()
}

/// The name of one bound argument, from its unit and item indexes.
pub open spec fn arg_name(u: int, j: int) -> Seq<u8> {
    "_nate_".spec_bytes() + dec_u(u as nat) + "_".spec_bytes() + dec_u(j as nat)
}

/// The tuple of binding names of a write run.
pub open spec fn gen_names(ws: Seq<WItem>, u: int, j: int) -> Seq<u8>
    decreases ws.len() - j,
    when 0 <= j <= ws.len()
{
    if j >= ws.len() {
        Seq::empty()
    } else {
        (match ws[j] {
            WItem::Arg(_, _) => "        ".spec_bytes() + arg_name(u, j) + ",\n".spec_bytes(),
            _ => Seq::empty(),
        }) + gen_names(ws, u, j + 1)
    }
}

/// The tuple of argument expressions of a write run, each with its
/// position comment.
pub open spec fn gen_exprs(srcs: Seq<Source>, ws: Seq<WItem>, u: int, j: int) -> Seq<u8>
    decreases ws.len() - j,
    when 0 <= j <= ws.len()
{
    if j >= ws.len() {
        Seq::empty()
    } else {
        (match ws[j] {
            WItem::Arg(_, sp) => "        ".spec_bytes() + addr_of(srcs, sp)
                + "        &(".spec_bytes() + sp.bytes(
                crate::render::text_of(srcs, sp.src as int),
            ) + "),\n".spec_bytes(),
            _ => Seq::empty(),
        }) + gen_exprs(srcs, ws, u, j + 1)
    }
}

/// The format suffix a data kind selects.
pub open spec fn fmt_suffix(k: DataKind) -> Seq<u8> {
    match k {
        DataKind::Debug => ":?".spec_bytes(),
        DataKind::Verbose => ":#?".spec_bytes(),
        _ => Seq::empty(),
    }
}

/// The synthesized format template of a write run: doubled-brace literal
/// fragments and one placeholder per argument.
pub open spec fn gen_tpl(srcs: Seq<Source>, ws: Seq<WItem>, u: int, j: int) -> Seq<u8>
    decreases ws.len() - j,
    when 0 <= j <= ws.len()
{
    if j >= ws.len() {
        Seq::empty()
    } else {
        (match ws[j] {
            WItem::Lit(sp) => tpl_lit(sp.bytes(crate::render::text_of(srcs, sp.src as int))),
            WItem::Arg(k, _) => seq![LBRACE] + arg_name(u, j) + fmt_suffix(k) + seq![RBRACE],
        }) + gen_tpl(srcs, ws, u, j + 1)
    }
}

/// The named-argument list of a write run, each argument handled by the
/// strategy its kind selects: raw arguments pass through unwrapped,
/// escaped arguments go through the tag dispatch, and debug and verbose
/// arguments always go through the escaper.
pub open spec fn gen_assigns(ws: Seq<WItem>, u: int, j: int) -> Seq<u8>
    decreases ws.len() - j,
    when 0 <= j <= ws.len()
{
    if j >= ws.len() {
        Seq::empty()
    } else {
        (match ws[j] {
            WItem::Arg(k, _) => match k {
                DataKind::Raw => "        ".spec_bytes() + arg_name(u, j) + " = ".spec_bytes()
                    + arg_name(u, j) + ",\n".spec_bytes(),
                DataKind::Escaped => "        ".spec_bytes() + arg_name(u, j)
                    + " = (&::nate::escape::EscapeWrapper::new(".spec_bytes() + arg_name(u, j)
                    + ")).wrap(".spec_bytes() + arg_name(u, j) + "),\n".spec_bytes(),
                _ => "        ".spec_bytes() + arg_name(u, j)
                    + " = ::nate::escape::XmlEscape(".spec_bytes() + arg_name(u, j)
                    + "),\n".spec_bytes(),
            },
            _ => Seq::empty(),
        }) + gen_assigns(ws, u, j + 1)
    }
}

/// The generated text of a write run.
pub open spec fn gen_write(srcs: Seq<Source>, ws: Seq<WItem>, u: int) -> Seq<u8> {
    if ws.len() == 1 && (ws[0] is Lit) {
        let sp = ws[0]->Lit_0;
        "{\n".spec_bytes() + addr_of(srcs, sp) + "    output.write_str(\"".spec_bytes()
            + rust_lit(sp.bytes(crate::render::text_of(srcs, sp.src as int)))
            + "\")?;\n}\n".spec_bytes()
    } else {
        "{\n    #[allow(unused_imports)]\n    use ::nate::escape::{EscapeKind as _, RawKind as _};\n    #[allow(unused_imports)]\n    use ::nate::fast_integer::IntKind as _;\n    let (\n".spec_bytes()
            + gen_names(ws, u, 0) + "    ) = (\n".spec_bytes()
            + gen_exprs(srcs, ws, u, 0)
            + "    );\n    output.write_fmt(format_args!(\n        \"".spec_bytes() + gen_tpl(
            srcs,
            ws,
            u,
            0,
        ) + "\",\n".spec_bytes() + gen_assigns(ws, u, 0) + "    ))?;\n}\n".spec_bytes()
    }
}

/// The generated text of a code run: each block with its position
/// comment, spliced verbatim.
pub open spec fn gen_code(srcs: Seq<Source>, cs: Seq<crate::source::Span>, j: int) -> Seq<u8>
    decreases cs.len() - j,
    when 0 <= j <= cs.len()
{
    if j >= cs.len() {
        Seq::empty()
    } else {
        addr_of(srcs, cs[j]) + cs[j].bytes(crate::render::text_of(srcs, cs[j].src as int))
            + "\n".spec_bytes() + gen_code(srcs, cs, j + 1)
    }
}

/// The opening of a file's scope, with its staleness marker: a
/// machine-readable line naming the file it depends on, so that outside
/// build tooling can watch that file for changes.
pub open spec fn gen_enter(srcs: Seq<Source>, sid: int) -> Seq<u8> {
    "{ /* #[nate::depends_on(path=\"".spec_bytes() + rust_lit(path_bytes(srcs, sid))
        + "\")] */\n".spec_bytes()
}

/// The generated text of one emission unit.
pub open spec fn gen_unit(srcs: Seq<Source>, u: SpecUnit, uidx: int) -> Seq<u8> {
    match u {
        SpecUnit::Code(cs) => gen_code(srcs, cs, 0),
        SpecUnit::Write(ws) => gen_write(srcs, ws, uidx),
        SpecUnit::Enter(sid) => gen_enter(srcs, sid as int),
        SpecUnit::Leave => "}\n".spec_bytes(),
    }
}

/// The generated text of a unit sequence.
pub open spec fn gen_units(srcs: Seq<Source>, us: Seq<SpecUnit>, uidx: int) -> Seq<u8>
    decreases us.len(),
{
    if us.len() == 0 {
        Seq::empty()
    } else {
        gen_unit(srcs, us[0], uidx) + gen_units(srcs, us.skip(1), uidx + 1)
    }
}

/// The head of the generated program.
pub open spec fn gen_header(ident: Seq<u8>) -> Seq<u8> {
    "impl ::nate::render::RenderInto for ".spec_bytes() + ident
        + " {\n    fn render_into<W: ::nate::render::WriteAny>(&self, output: &mut W) -> ::core::result::Result<(), ::nate::render::RenderError> {\n".spec_bytes()
}

/// The whole generated program for one template. The same sources and
/// units always yield byte-identical text.
pub open spec fn gen_spec(ident: Seq<u8>, srcs: Seq<Source>, us: Seq<SpecUnit>) -> Seq<u8> {
    gen_header(ident) + gen_units(srcs, us, 0)
        + "        ::core::result::Result::Ok(())\n    }\n}\n".spec_bytes()
}

/// Every span of the units resolves against the sources, every named
/// scope exists, and every text leaves room for a position query.
pub open spec fn gen_ok(us: Seq<SpecUnit>, srcs: Seq<Source>) -> bool {
    &&& crate::render::units_ok(us, srcs)
    &&& forall|i: int|
        0 <= i < us.len() ==> ((#[trigger] us[i]) matches SpecUnit::Enter(sid) ==> sid
            < srcs.len())
    &&& forall|k: int| 0 <= k < srcs.len() ==> (#[trigger] srcs[k].text@.len()) < usize::MAX
}

/// Append the position comment for a span.
fn push_addr(out: &mut Vec<u8>, srcs: &Vec<Source>, sp: crate::source::Span)
    requires
        crate::render::span_ok(sp, srcs@),
        srcs@[sp.src as int].text@.len() < usize::MAX,
    ensures
        final(out)@ == old(out)@ + addr_of(srcs@, sp),
{
    push_str_frag(out, "/* #[nate::addr(path=\"");
    let src = &srcs[sp.src];
    match &src.path {
        Some(p) => {
            push_rust_lit(out, p.as_slice());
        },
        None => {
            push_rust_lit(out, "??".as_bytes());
            assert("??".spec_bytes() =~= path_bytes(srcs@, sp.src as int));
        },
    }
    push_str_frag(out, "\", offset=");
    push_dec(out, sp.start);
    push_str_frag(out, ", row=");
    let text = src.text.as_slice();
    let row = crate::source::line_of(text, sp.start);
    push_dec(out, row);
    push_str_frag(out, ", col=");
    let col = crate::source::column_of(text, sp.start);
    push_dec(out, col);
    push_str_frag(out, ")] */\n");
    assert(out@ =~= old(out)@ + addr_of(srcs@, sp));
}

} // verus!

verus! {

/// Append one argument's binding name.
fn push_arg_name(out: &mut Vec<u8>, u: usize, j: usize)
    ensures
        final(out)@ == old(out)@ + arg_name(u as int, j as int),
{
    push_str_frag(out, "_nate_");
    push_dec(out, u);
    push_str_frag(out, "_");
    push_dec(out, j);
    assert(out@ =~= old(out)@ + arg_name(u as int, j as int));
}

/// Append the generated text of a write run.
#[verifier::rlimit(80)]
fn push_write_unit(out: &mut Vec<u8>, srcs: &Vec<Source>, ws: &Vec<WItem>, u: usize)
    requires
        crate::render::witems_ok(ws@, srcs@),
        forall|k: int| 0 <= k < srcs@.len() ==> (#[trigger] srcs@[k].text@.len()) < usize::MAX,
    ensures
        final(out)@ == old(out)@ + gen_write(srcs@, ws@, u as int),
{
    let n = ws.len();
    if n == 1 {
        let only = ws[0];
        match only {
            WItem::Lit(sp) => {
                assert(ws@[0] == only);
                push_str_frag(out, "{\n");
                push_addr(out, srcs, sp);
                push_str_frag(out, "    output.write_str(\"");
                let src = &srcs[sp.src];
                push_rust_lit(out, sp.slice_of(src.text.as_slice()));
                push_str_frag(out, "\")?;\n}\n");
                assert(out@ =~= old(out)@ + gen_write(srcs@, ws@, u as int));
                return ;
            },
            _ => {},
        }
    }
    assert(!(ws@.len() == 1 && (ws@[0] is Lit)));
    push_str_frag(
        out,
        "{\n    #[allow(unused_imports)]\n    use ::nate::escape::{EscapeKind as _, RawKind as _};\n    #[allow(unused_imports)]\n    use ::nate::fast_integer::IntKind as _;\n    let (\n",
    );
    let ghost mark1 = out@;
    let mut j: usize = 0;
    while j < n
        invariant
            j <= n,
            n == ws@.len(),
            crate::render::witems_ok(ws@, srcs@),
            mark1 + gen_names(ws@, u as int, 0) == out@ + gen_names(ws@, u as int, j as int),
        decreases n - j,
    {
        match ws[j] {
            WItem::Arg(_, _) => {
                push_str_frag(out, "        ");
                push_arg_name(out, u, j);
                push_str_frag(out, ",\n");
            },
            _ => {},
        }
        j = j + 1;
    }
    assert(gen_names(ws@, u as int, n as int) == Seq::<u8>::empty());
    push_str_frag(out, "    ) = (\n");
    let ghost mark2 = out@;
    let mut j2: usize = 0;
    while j2 < n
        invariant
            j2 <= n,
            n == ws@.len(),
            crate::render::witems_ok(ws@, srcs@),
            forall|k: int| 0 <= k < srcs@.len() ==> (#[trigger] srcs@[k].text@.len()) < usize::MAX,
            mark2 + gen_exprs(srcs@, ws@, u as int, 0) == out@ + gen_exprs(
                srcs@,
                ws@,
                u as int,
                j2 as int,
            ),
        decreases n - j2,
    {
        match ws[j2] {
            WItem::Arg(_, sp) => {
                assert(ws@[j2 as int] is Arg);
                push_str_frag(out, "        ");
                push_addr(out, srcs, sp);
                push_str_frag(out, "        &(");
                let src = &srcs[sp.src];
                append_bytes(out, sp.slice_of(src.text.as_slice()));
                push_str_frag(out, "),\n");
            },
            _ => {},
        }
        j2 = j2 + 1;
    }
    assert(gen_exprs(srcs@, ws@, u as int, n as int) == Seq::<u8>::empty());
    push_str_frag(out, "    );\n    output.write_fmt(format_args!(\n        \"");
    let ghost mark3 = out@;
    let mut j3: usize = 0;
    while j3 < n
        invariant
            j3 <= n,
            n == ws@.len(),
            crate::render::witems_ok(ws@, srcs@),
            mark3 + gen_tpl(srcs@, ws@, u as int, 0) == out@ + gen_tpl(
                srcs@,
                ws@,
                u as int,
                j3 as int,
            ),
        decreases n - j3,
    {
        match ws[j3] {
            WItem::Lit(sp) => {
                assert(ws@[j3 as int] is Lit);
                let src = &srcs[sp.src];
                push_tpl_lit(out, sp.slice_of(src.text.as_slice()));
            },
            WItem::Arg(k, _) => {
                out.push(LBRACE);
                push_arg_name(out, u, j3);
                match k {
                    DataKind::Debug => {
                        push_str_frag(out, ":?");
                    },
                    DataKind::Verbose => {
                        push_str_frag(out, ":#?");
                    },
                    _ => {
                        assert(fmt_suffix(k) == Seq::<u8>::empty());
                    },
                }
                out.push(RBRACE);
            },
        }
        j3 = j3 + 1;
    }
    assert(gen_tpl(srcs@, ws@, u as int, n as int) == Seq::<u8>::empty());
    push_str_frag(out, "\",\n");
    let ghost mark4 = out@;
    let mut j4: usize = 0;
    while j4 < n
        invariant
            j4 <= n,
            n == ws@.len(),
            mark4 + gen_assigns(ws@, u as int, 0) == out@ + gen_assigns(ws@, u as int, j4 as int),
        decreases n - j4,
    {
        match ws[j4] {
            WItem::Arg(k, _) => {
                match k {
                    DataKind::Raw => {
                        push_str_frag(out, "        ");
                        push_arg_name(out, u, j4);
                        push_str_frag(out, " = ");
                        push_arg_name(out, u, j4);
                        push_str_frag(out, ",\n");
                    },
                    DataKind::Escaped => {
                        push_str_frag(out, "        ");
                        push_arg_name(out, u, j4);
                        push_str_frag(out, " = (&::nate::escape::EscapeWrapper::new(");
                        push_arg_name(out, u, j4);
                        push_str_frag(out, ")).wrap(");
                        push_arg_name(out, u, j4);
                        push_str_frag(out, "),\n");
                    },
                    _ => {
                        push_str_frag(out, "        ");
                        push_arg_name(out, u, j4);
                        push_str_frag(out, " = ::nate::escape::XmlEscape(");
                        push_arg_name(out, u, j4);
                        push_str_frag(out, "),\n");
                    },
                }
            },
            _ => {},
        }
        j4 = j4 + 1;
    }
    assert(gen_assigns(ws@, u as int, n as int) == Seq::<u8>::empty());
    push_str_frag(out, "    ))?;\n}\n");
    assert(out@ =~= old(out)@ + gen_write(srcs@, ws@, u as int));
}

/// Append the generated text of a code run.
fn push_code_unit(out: &mut Vec<u8>, srcs: &Vec<Source>, cs: &Vec<crate::source::Span>)
    requires
        forall|k: int| 0 <= k < cs@.len() ==> crate::render::span_ok(#[trigger] cs@[k], srcs@),
        forall|k: int| 0 <= k < srcs@.len() ==> (#[trigger] srcs@[k].text@.len()) < usize::MAX,
    ensures
        final(out)@ == old(out)@ + gen_code(srcs@, cs@, 0),
{
    let n = cs.len();
    let mut j: usize = 0;
    while j < n
        invariant
            j <= n,
            n == cs@.len(),
            forall|k: int| 0 <= k < cs@.len() ==> crate::render::span_ok(#[trigger] cs@[k], srcs@),
            forall|k: int| 0 <= k < srcs@.len() ==> (#[trigger] srcs@[k].text@.len()) < usize::MAX,
            old(out)@ + gen_code(srcs@, cs@, 0) == out@ + gen_code(srcs@, cs@, j as int),
        decreases n - j,
    {
        let sp = cs[j];
        push_addr(out, srcs, sp);
        let src = &srcs[sp.src];
        append_bytes(out, sp.slice_of(src.text.as_slice()));
        push_str_frag(out, "\n");
        j = j + 1;
    }
    assert(gen_code(srcs@, cs@, n as int) == Seq::<u8>::empty());
}

/// Append a file scope's opening with its staleness marker.
fn push_enter(out: &mut Vec<u8>, srcs: &Vec<Source>, sid: usize)
    requires
        sid < srcs@.len(),
    ensures
        final(out)@ == old(out)@ + gen_enter(srcs@, sid as int),
{
    push_str_frag(out, "{ /* #[nate::depends_on(path=\"");
    let src = &srcs[sid];
    match &src.path {
        Some(p) => {
            push_rust_lit(out, p.as_slice());
        },
        None => {
            push_rust_lit(out, "??".as_bytes());
            assert("??".spec_bytes() =~= path_bytes(srcs@, sid as int));
        },
    }
    push_str_frag(out, "\")] */\n");
    assert(out@ =~= old(out)@ + gen_enter(srcs@, sid as int));
}

/// Render the emission units into the full generated program for the
/// type named `ident`. The text is a pure function of its inputs: the
/// same sources and units always yield byte-identical output.
pub fn generate(ident: &[u8], srcs: &Vec<Source>, units: &Vec<Unit>) -> (r: Vec<u8>)
    requires
        gen_ok(units_view(units@), srcs@),
    ensures
        r@ == gen_spec(ident@, srcs@, units_view(units@)),
{
    let ghost uv = units_view(units@);
    let mut out: Vec<u8> = Vec::new();
    push_str_frag(&mut out, "impl ::nate::render::RenderInto for ");
    append_bytes(&mut out, ident);
    push_str_frag(
        &mut out,
        " {\n    fn render_into<W: ::nate::render::WriteAny>(&self, output: &mut W) -> ::core::result::Result<(), ::nate::render::RenderError> {\n",
    );
    assert(out@ =~= gen_header(ident@));
    let n = units.len();
    let mut i: usize = 0;
    proof {
        assert(uv.skip(0) =~= uv);
    }
    while i < n
        invariant
            i <= n,
            n == units@.len(),
            uv == units_view(units@),
            gen_ok(uv, srcs@),
            gen_header(ident@) + gen_units(srcs@, uv, 0) == out@ + gen_units(
                srcs@,
                uv.skip(i as int),
                i as int,
            ),
        decreases n - i,
    {
        proof {
            assert(uv.skip(i as int)[0] == uv[i as int]);
            assert(uv[i as int] == units@[i as int]@);
            assert(uv.skip(i as int).skip(1) =~= uv.skip(i + 1));
        }
        match &units[i] {
            Unit::Code(cs) => {
                push_code_unit(&mut out, srcs, cs);
            },
            Unit::Write(ws) => {
                push_write_unit(&mut out, srcs, ws, i);
            },
            Unit::Enter(sid) => {
                push_enter(&mut out, srcs, *sid);
            },
            Unit::Leave => {
                push_str_frag(&mut out, "}\n");
            },
        }
        i = i + 1;
    }
    assert(uv.skip(n as int) =~= Seq::<SpecUnit>::empty());
    push_str_frag(&mut out, "        ::core::result::Result::Ok(())\n    }\n}\n");
    assert(out@ =~= gen_spec(ident@, srcs@, uv));
    out
}

} // verus!
