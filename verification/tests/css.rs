use nate::assemble::{assemble, Unit};
use nate::compile::{compile, SourceFile};
use nate::render::{render_units, RenderedArg};
use nate::source::Source;
use nate::strip::Strip;

fn compiled(files: &[(&str, &str)], main: &str, mode: Strip) -> (Vec<Source>, Vec<Unit>) {
    let table: Vec<SourceFile> = files
        .iter()
        .map(|(p, t)| SourceFile {
            path: p.as_bytes().to_vec(),
            text: t.as_bytes().to_vec(),
        })
        .collect();
    let (srcs, items) = match compile(&table, main.as_bytes(), mode) {
        Ok(p) => p,
        Err(_) => panic!("template did not compile"),
    };
    let units = assemble(&items);
    (srcs, units)
}

fn arg(text: &str, safe: bool) -> RenderedArg {
    RenderedArg {
        text: text.as_bytes().to_vec(),
        safe,
    }
}

fn rendered(files: &[(&str, &str)], main: &str, mode: Strip, args: Vec<RenderedArg>) -> String {
    let (srcs, units) = compiled(files, main, mode);
    String::from_utf8(render_units(&units, &srcs, &args)).unwrap()
}

const TEST_CSS: &str = "#body {\n    color:      {{ color }};\n    background: {{ background }};\n}\n";

#[test]
fn css_test_css() {
    let buf = rendered(
        &[("test.css", TEST_CSS)],
        "test.css",
        Strip::Keep,
        vec![arg("red", false), arg("lightyellow", false)],
    );
    assert_eq!(
        buf,
        r#"#body {
    color:      red;
    background: lightyellow;
}
"#
    );
}

#[test]
fn test_css_tail() {
    let buf = rendered(
        &[("test.css", TEST_CSS)],
        "test.css",
        Strip::Tail,
        vec![arg("red", false), arg("lightyellow", false)],
    );
    assert_eq!(
        buf,
        r#"#body {
    color:      red;
    background: lightyellow;
}"#
    );
}

#[test]
fn test_css_trim() {
    let buf = rendered(
        &[("test.css", TEST_CSS)],
        "test.css",
        Strip::Trim,
        vec![arg("red", false), arg("lightyellow", false)],
    );
    assert_eq!(
        buf,
        r#"#body {
color:      red;
background: lightyellow;
}"#
    );
}

#[test]
fn test_css_eager() {
    let buf = rendered(
        &[("test.css", TEST_CSS)],
        "test.css",
        Strip::Eager,
        vec![arg("red", false), arg("lightyellow", false)],
    );
    assert_eq!(
        buf,
        r#"#body {
color: red;
background: lightyellow;
}"#
    );
}
