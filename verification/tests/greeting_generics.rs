use nate::assemble::{assemble, Unit};
use nate::compile::{compile, SourceFile};
use nate::render::{render_units, RenderedArg};
use nate::source::Source;
use nate::strip::Strip;

const GREETING: &str = "<h1>Hello, {{user}}!</h1>";
const GREETING_RAW: &str = "<h1>Hello, {{{user}}}!</h1>";

fn compiled(name: &str, text: &str) -> (Vec<Source>, Vec<Unit>) {
    let table = vec![SourceFile {
        path: name.as_bytes().to_vec(),
        text: text.as_bytes().to_vec(),
    }];
    let (srcs, items) = match compile(&table, name.as_bytes(), Strip::Keep) {
        Ok(p) => p,
        Err(_) => panic!("template did not compile"),
    };
    (srcs, assemble(&items))
}

fn rendered(name: &str, text: &str, args: Vec<RenderedArg>) -> String {
    let (srcs, units) = compiled(name, text);
    String::from_utf8(render_units(&units, &srcs, &args)).unwrap()
}

#[test]
fn test_lifetimes() {
    let user: &str = "<World>";
    let buf = rendered(
        "greeting.html",
        GREETING,
        vec![RenderedArg { text: user.as_bytes().to_vec(), safe: false }],
    );
    assert_eq!(buf, "<h1>Hello, &#60;World&#62;!</h1>");
}

#[test]
fn test_nesting() {
    // The inner template renders first; the outer raw placeholder takes
    // its full output unescaped, as nesting one rendering in another.
    let inner = rendered(
        "greeting.html",
        GREETING,
        vec![RenderedArg { text: b"<World>".to_vec(), safe: false }],
    );
    let buf = rendered(
        "greeting-raw.html",
        GREETING_RAW,
        vec![RenderedArg { text: inner.into_bytes(), safe: false }],
    );
    assert_eq!(buf, "<h1>Hello, <h1>Hello, &#60;World&#62;!</h1>!</h1>");
}

#[test]
fn test_nesting_where() {
    let inner = rendered(
        "greeting.html",
        GREETING,
        vec![RenderedArg { text: b"<World>".to_vec(), safe: false }],
    );
    let buf = rendered(
        "greeting-raw.html",
        GREETING_RAW,
        vec![RenderedArg { text: inner.into_bytes(), safe: false }],
    );
    assert_eq!(buf, "<h1>Hello, <h1>Hello, &#60;World&#62;!</h1>!</h1>");
}
