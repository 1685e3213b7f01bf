use nate::assemble::assemble;
use nate::compile::{compile, CompileError, SourceFile};
use nate::escape::{escape_bytes, unescape_bytes};
use nate::fast_integer::{format_i64, format_u64};
use nate::generate::{artifact_name, generate};
use nate::message::parse_error_message;
use nate::path::resolve_path;
use nate::render::render_units;
use nate::scan::{scan, Block, DataKind, ParseErrorKind};
use nate::source::Source;
use nate::strip::{apply_strip, Strip};

fn compile_units(
    files: &[(&str, &str)],
    main: &str,
) -> (Vec<Source>, Vec<nate::assemble::Unit>) {
    let table: Vec<SourceFile> = files
        .iter()
        .map(|(p, t)| SourceFile {
            path: p.as_bytes().to_vec(),
            text: t.as_bytes().to_vec(),
        })
        .collect();
    let (srcs, items) = match compile(&table, main.as_bytes(), Strip::Keep) {
        Ok(p) => p,
        Err(_) => panic!("template did not compile"),
    };
    let units = assemble(&items);
    (srcs, units)
}

// Literal text with no delimiter openers — a lone brace included —
// renders byte for byte.
#[test]
fn literal_text_is_identity() {
    let text = "plain text, one { brace, some }}} and unicode äöü";
    let (srcs, units) = compile_units(&[("t.html", text)], "t.html");
    let buf = String::from_utf8(render_units(&units, &srcs, &vec![])).unwrap();
    assert_eq!(buf, text);
}

#[test]
fn empty_template_renders_empty() {
    let (srcs, units) = compile_units(&[("t.html", "")], "t.html");
    let buf = render_units(&units, &srcs, &vec![]);
    assert!(buf.is_empty());
}

// Escaping is a no-op on reserved-free text and never alters printed
// numbers or booleans.
#[test]
fn escaping_no_op_on_safe_text() {
    assert_eq!(escape_bytes(b"plain text 123 true"), b"plain text 123 true".to_vec());
    assert_eq!(escape_bytes(&format_u64(18446744073709551615)), format_u64(18446744073709551615));
    assert_eq!(escape_bytes(&format_i64(-42)), format_i64(-42));
    let once = escape_bytes(b"12 true -7");
    assert_eq!(escape_bytes(&once), once);
}

#[test]
fn escaping_exact_entities() {
    assert_eq!(
        String::from_utf8(escape_bytes(br#"<a href="x">&'</a>"#)).unwrap(),
        "&#60;a href=&#34;x&#34;&#62;&#38;&#39;&#60;/a&#62;"
    );
}

// Decoding the five numeric references inverts escaping exactly.
#[test]
fn escape_round_trip() {
    let raw: &[u8] = br#"a<b>c&d"e'f && <<>> ""''"#;
    assert_eq!(unescape_bytes(&escape_bytes(raw)), raw.to_vec());
    let no_refs: &[u8] = b"nothing special at all";
    assert_eq!(unescape_bytes(&escape_bytes(no_refs)), no_refs.to_vec());
}

// Trim correctness around a code block, with and without the closing
// marker.
#[test]
fn trim_both_sides_of_code_block() {
    let blocks = scan(b"A  {%- code -%}  B", 0).unwrap_or_else(|_| panic!("scan failed"));
    assert_eq!(blocks.len(), 3);
    match (&blocks[0], &blocks[1], &blocks[2]) {
        (Block::Literal(a), Block::Code(c), Block::Literal(b)) => {
            assert_eq!((a.start, a.end), (0, 1));
            assert_eq!((c.start, c.end), (7, 11));
            assert_eq!((b.start, b.end), (17, 18));
        },
        _ => panic!("unexpected block shapes"),
    }
}

#[test]
fn no_closing_marker_keeps_trailing_whitespace() {
    let blocks = scan(b"A  {%- code %}  B", 0).unwrap_or_else(|_| panic!("scan failed"));
    assert_eq!(blocks.len(), 3);
    match (&blocks[0], &blocks[1], &blocks[2]) {
        (Block::Literal(a), Block::Code(c), Block::Literal(b)) => {
            assert_eq!((a.start, a.end), (0, 1));
            assert_eq!((c.start, c.end), (7, 11));
            // The whitespace before `B` stays.
            assert_eq!((b.start, b.end), (14, 17));
        },
        _ => panic!("unexpected block shapes"),
    }
}

// Delimiter disambiguation: each nesting depth of braces is exactly one
// block of its own family, never nested shorter blocks.
#[test]
fn delimiter_disambiguation() {
    let cases: [(&[u8], DataKind); 4] = [
        (b"{{x}}", DataKind::Escaped),
        (b"{{{x}}}", DataKind::Raw),
        (b"{{{{x}}}}", DataKind::Debug),
        (b"{{{{{x}}}}}", DataKind::Verbose),
    ];
    for (text, kind) in cases.iter() {
        let blocks = scan(text, 0).unwrap_or_else(|_| panic!("scan failed"));
        assert_eq!(blocks.len(), 1);
        match &blocks[0] {
            Block::Data(k, sp) => {
                assert_eq!(k, kind);
                assert_eq!(sp.end - sp.start, 1);
            },
            _ => panic!("not a data block"),
        }
    }
}

// An embedded file behaves as if its content stood pasted in place, and
// changing it changes the cached artifact.
#[test]
fn embedded_file_equals_pasted_content() {
    let with_embed = compile_units(
        &[("a.html", "X{< ./b.html >}Y"), ("b.html", "-inner-")],
        "a.html",
    );
    let pasted = compile_units(&[("a.html", "X-inner-Y")], "a.html");
    let out1 = render_units(&with_embed.1, &with_embed.0, &vec![]);
    let out2 = render_units(&pasted.1, &pasted.0, &vec![]);
    assert_eq!(out1, out2);
    assert_eq!(String::from_utf8(out1).unwrap(), "X-inner-Y");

    let changed = compile_units(
        &[("a.html", "X{< ./b.html >}Y"), ("b.html", "-other-")],
        "a.html",
    );
    let p1 = generate(b"T", &with_embed.0, &with_embed.1);
    let p2 = generate(b"T", &changed.0, &changed.1);
    assert_ne!(p1, p2);
    assert_ne!(artifact_name(&p1), artifact_name(&p2));
}

// Two templates whose generated programs are textually identical resolve
// to one cache artifact: equal content hash, a single entry in the
// store.
#[test]
fn identical_programs_share_one_artifact() {
    let t1 = compile_units(&[("t.html", "A{# one note #}B")], "t.html");
    let t2 = compile_units(&[("t.html", "A{# another #}B")], "t.html");
    let p1 = generate(b"T", &t1.0, &t1.1);
    let p2 = generate(b"T", &t2.0, &t2.1);
    assert_eq!(p1, p2);
    let n1 = artifact_name(&p1);
    let n2 = artifact_name(&p2);
    assert_eq!(n1, n2);

    // A write-if-absent store keeps a single file for both.
    let mut store: Vec<(Vec<u8>, Vec<u8>)> = Vec::new();
    for (name, content) in [(n1, p1), (n2, p2)] {
        if !store.iter().any(|(n, _)| *n == name) {
            store.push((name, content));
        }
    }
    assert_eq!(store.len(), 1);
}

// The one-call pipeline agrees with compiling and folding by hand.
#[test]
fn compile_template_matches_manual_pipeline() {
    let table = vec![SourceFile {
        path: b"t.html".to_vec(),
        text: b"Hello, {{user}}!".to_vec(),
    }];
    let (srcs, units) = match nate::compile::compile_template(&table, b"t.html", Strip::Keep) {
        Ok(p) => p,
        Err(_) => panic!("template did not compile"),
    };
    let args = vec![nate::render::RenderedArg { text: b"<W>".to_vec(), safe: false }];
    let buf = String::from_utf8(render_units(&units, &srcs, &args)).unwrap();
    assert_eq!(buf, "Hello, &#60;W&#62;!");
}

// The placeholder count tells a caller how many argument values a
// render takes.
#[test]
fn placeholder_count_matches_template() {
    let (_, units) = compile_units(&[("t.html", "{{a}} and {{{b}}} and {{{{c}}}}")], "t.html");
    assert_eq!(nate::render::placeholder_count(&units), Some(3));
    let (_, none) = compile_units(&[("t.html", "no placeholders")], "t.html");
    assert_eq!(nate::render::placeholder_count(&none), Some(0));
}

// The generator is deterministic: the same input yields byte-identical
// text on every run.
#[test]
fn generation_is_deterministic() {
    let t = compile_units(&[("t.html", "Hello, {{user}}!")], "t.html");
    let p1 = generate(b"T", &t.0, &t.1);
    let p2 = generate(b"T", &t.0, &t.1);
    assert_eq!(p1, p2);
}

// The artifact name is the known digest of the program text; this fails
// if the hash or hex step handed its input back unchanged.
#[test]
fn artifact_name_is_content_digest() {
    let name = String::from_utf8(artifact_name(b"")).unwrap();
    assert_eq!(
        name,
        "786a02f742015903c6c6fd852552d272912f4740e15847618a86e217f71f5419\
         d25e1031afee585313896444934eb04b903a685b1448b755d56f701afe9be2ce.rs"
    );
}

#[test]
fn unterminated_block_is_fatal() {
    match scan(b"text {% never closed", 0) {
        Err(e) => {
            assert_eq!(e.kind, ParseErrorKind::Unterminated);
            assert_eq!(e.offset, 5);
        },
        Ok(_) => panic!("an unterminated block must not scan"),
    }
    assert!(scan(b"{# open comment", 0).is_err());
    assert!(scan(b"{< open embed", 0).is_err());
    assert!(scan(b"{{ open value", 0).is_err());
}

#[test]
fn empty_body_is_fatal() {
    match scan(b"{{   }}", 0) {
        Err(e) => assert_eq!(e.kind, ParseErrorKind::EmptyBody),
        Ok(_) => panic!("an empty value block must not scan"),
    }
    assert!(scan(b"{<  >}", 0).is_err());
    // Code and comment blocks may be empty.
    assert!(scan(b"{%  %}", 0).is_ok());
    assert!(scan(b"{#  #}", 0).is_ok());
}

#[test]
fn missing_file_reports_resolved_path() {
    let table = vec![SourceFile { path: b"a.html".to_vec(), text: b"{< ./b.html >}".to_vec() }];
    match compile(&table, b"a.html", Strip::Keep) {
        Err(CompileError::Missing(p)) => assert_eq!(p, b"b.html".to_vec()),
        _ => panic!("a missing file must be reported"),
    }
}

#[test]
fn embed_cycle_is_refused() {
    let table = vec![
        SourceFile { path: b"a.html".to_vec(), text: b"{< ./b.html >}".to_vec() },
        SourceFile { path: b"b.html".to_vec(), text: b"{< ./a.html >}".to_vec() },
    ];
    match compile(&table, b"a.html", Strip::Keep) {
        Err(CompileError::Cycle(p)) => assert_eq!(p, b"a.html".to_vec()),
        _ => panic!("an embed cycle must be refused"),
    }
}

#[test]
fn parse_error_message_has_position_and_preview() {
    let table = vec![SourceFile {
        path: b"broken.html".to_vec(),
        text: b"line one\nxy {% never closed".to_vec(),
    }];
    match compile(&table, b"broken.html", Strip::Keep) {
        Err(CompileError::Parse(e)) => {
            let srcs = vec![Source {
                text: b"line one\nxy {% never closed".to_vec(),
                path: Some(b"broken.html".to_vec()),
            }];
            let msg = String::from_utf8(parse_error_message(&srcs, &e)).unwrap();
            assert_eq!(
                msg,
                "Problems parsing template source \"broken.html\" at row 2, column 4 near:\n\"{% never closed\""
            );
        },
        _ => panic!("the unterminated block must be reported"),
    }
}

#[test]
fn preview_is_truncated_with_ellipsis() {
    let mut text = b"{% ".to_vec();
    text.extend(std::iter::repeat(b'x').take(200));
    let srcs = vec![Source { text: text.clone(), path: Some(b"long.html".to_vec()) }];
    let err = match scan(&text, 0) {
        Err(e) => e,
        Ok(_) => panic!("must not scan"),
    };
    let msg = String::from_utf8(parse_error_message(&srcs, &err)).unwrap();
    assert!(msg.ends_with("..."));
    let quoted = msg.split('"').nth(3).unwrap();
    assert_eq!(quoted.chars().count(), 72);
}

// Columns count characters, not bytes, so multi-byte text before the
// failure does not inflate the position.
#[test]
fn column_counts_characters() {
    let text = "äö {%".as_bytes().to_vec();
    let err = match scan(&text, 0) {
        Err(e) => e,
        Ok(_) => panic!("must not scan"),
    };
    assert_eq!(err.offset, 5);
    let srcs = vec![Source { text, path: Some(b"u.html".to_vec()) }];
    let msg = String::from_utf8(parse_error_message(&srcs, &err)).unwrap();
    assert!(msg.contains("at row 1, column 4 near:"));
}

#[test]
fn strip_modes_edge_cases() {
    assert_eq!(apply_strip(b"", Strip::Tail), b"".to_vec());
    assert_eq!(apply_strip(b"a\n", Strip::Tail), b"a".to_vec());
    assert_eq!(apply_strip(b"a\n\n", Strip::Tail), b"a\n".to_vec());
    assert_eq!(apply_strip(b"  \n \t \n", Strip::Trim), b"".to_vec());
    assert_eq!(apply_strip(b" a \n\n b ", Strip::Trim), b"a\nb".to_vec());
    assert_eq!(apply_strip(b" a   b \n", Strip::Eager), b"a b".to_vec());
    assert_eq!(apply_strip(b"keep as is", Strip::Keep), b"keep as is".to_vec());
}

#[test]
fn boolean_formatting_safe() {
    assert_eq!(nate::escape::format_bool(true), b"true".to_vec());
    assert_eq!(nate::escape::format_bool(false), b"false".to_vec());
    assert_eq!(escape_bytes(&nate::escape::format_bool(true)), b"true".to_vec());
}

#[test]
fn integer_formatting_exact() {
    assert_eq!(format_u64(0), b"0".to_vec());
    assert_eq!(format_u64(907), b"907".to_vec());
    assert_eq!(format_u64(18446744073709551615), b"18446744073709551615".to_vec());
    assert_eq!(format_i64(-9223372036854775808), b"-9223372036854775808".to_vec());
    assert_eq!(format_i64(-1), b"-1".to_vec());
}

#[test]
fn path_resolution() {
    assert_eq!(resolve_path(b"dir/a.html", b"./b.html"), b"dir/b.html".to_vec());
    assert_eq!(resolve_path(b"dir/a.html", b"../b.html"), b"b.html".to_vec());
    assert_eq!(resolve_path(b"a.html", b"./b.html"), b"b.html".to_vec());
    assert_eq!(resolve_path(b"dir/a.html", b"root.html"), b"root.html".to_vec());
    assert_eq!(resolve_path(b"d/e/a.html", b"./x/../y.html"), b"d/e/y.html".to_vec());
}

// Comments take part in trim resolution before they are dropped.
#[test]
fn comment_trims_neighbours_then_vanishes() {
    let blocks = scan(b"A {#- note -#} B", 0).unwrap_or_else(|_| panic!("scan failed"));
    assert_eq!(blocks.len(), 2);
    match (&blocks[0], &blocks[1]) {
        (Block::Literal(a), Block::Literal(b)) => {
            assert_eq!((a.start, a.end), (0, 1));
            assert_eq!((b.start, b.end), (15, 16));
        },
        _ => panic!("unexpected block shapes"),
    }
}

// The generated program embeds the escaping dispatch and the template
// literal; a changed placeholder kind changes the program.
#[test]
fn generated_program_shape() {
    let t1 = compile_units(&[("t.html", "A {{v}} B")], "t.html");
    let p = String::from_utf8(generate(b"Greeting", &t1.0, &t1.1)).unwrap();
    assert!(p.contains("impl ::nate::render::RenderInto for Greeting"));
    assert!(p.contains("(&::nate::escape::EscapeWrapper::new(_nate_1_1)).wrap(_nate_1_1)"));
    // The dispatch traits the wrap calls resolve through are in scope.
    assert!(p.contains("use ::nate::escape::{EscapeKind as _, RawKind as _};"));
    assert!(p.contains("use ::nate::fast_integer::IntKind as _;"));
    assert!(p.contains("nate::addr"));
    let t2 = compile_units(&[("t.html", "A {{{v}}} B")], "t.html");
    let p2 = String::from_utf8(generate(b"Greeting", &t2.0, &t2.1)).unwrap();
    assert_ne!(p, p2);
}

// A raw placeholder is bound and formatted as it stands: the generated
// program never routes it through the escaping dispatch.
#[test]
fn generated_program_keeps_raw_unwrapped() {
    let t = compile_units(&[("t.html", "A {{{v}}} B")], "t.html");
    let p = String::from_utf8(generate(b"Greeting", &t.0, &t.1)).unwrap();
    assert!(p.contains("_nate_1_1 = _nate_1_1,"));
    assert!(!p.contains("EscapeWrapper::new(_nate_1_1)"));
    assert!(!p.contains("XmlEscape(_nate_1_1)"));
    // Debug and verbose placeholders always go through the escaper.
    let d = compile_units(&[("t.html", "A {{{{v}}}} B")], "t.html");
    let pd = String::from_utf8(generate(b"Greeting", &d.0, &d.1)).unwrap();
    assert!(pd.contains("_nate_1_1 = ::nate::escape::XmlEscape(_nate_1_1),"));
}

// The message of a failed file operation, assembled from plain values.
#[test]
fn io_error_message_exact() {
    let msg = String::from_utf8(nate::message::io_error_message(
        nate::message::IoOp::Read,
        b"templates/greeting.html",
        b"file not found",
    ))
    .unwrap();
    assert_eq!(msg, "could not read from \"templates/greeting.html\": file not found");
    let msg2 = String::from_utf8(nate::message::io_error_message(
        nate::message::IoOp::Open,
        b"a.html",
        b"denied",
    ))
    .unwrap();
    assert_eq!(msg2, "could not open \"a.html\": denied");
    let msg3 = String::from_utf8(nate::message::io_error_message(
        nate::message::IoOp::Write,
        b"out.rs",
        b"full",
    ))
    .unwrap();
    assert_eq!(msg3, "could not write to \"out.rs\": full");
}
