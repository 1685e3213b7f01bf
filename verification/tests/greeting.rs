use nate::assemble::{assemble, Unit};
use nate::compile::{compile, SourceFile};
use nate::render::{render_units, RenderError, RenderInto, RenderedArg, WriteAny};
use nate::source::Source;
use nate::strip::Strip;

fn compiled(files: &[(&str, &str)], main: &str, mode: Strip) -> (Vec<Source>, Vec<Unit>) {
    let table: Vec<SourceFile> = files
        .iter()
        .map(|(p, t)| SourceFile {
            path: p.as_bytes().to_vec(),
            text: t.as_bytes().to_vec(),
        })
        .collect();
    let (srcs, items) = match compile(&table, main.as_bytes(), mode) {
        Ok(p) => p,
        Err(_) => panic!("template did not compile"),
    };
    let units = assemble(&items);
    (srcs, units)
}

fn arg(text: &str, safe: bool) -> RenderedArg {
    RenderedArg {
        text: text.as_bytes().to_vec(),
        safe,
    }
}

fn rendered(files: &[(&str, &str)], main: &str, mode: Strip, args: Vec<RenderedArg>) -> String {
    let (srcs, units) = compiled(files, main, mode);
    String::from_utf8(render_units(&units, &srcs, &args)).unwrap()
}

const GREETING: &str = "<h1>Hello, {{user}}!</h1>";
const GREETING_RAW: &str = "<h1>Hello, {{{user}}}!</h1>";
const HELLO_WORLD: &str = "Hello, World!";

#[test]
fn greeting_test_hello_world() {
    let buf = rendered(&[("hello_world.html", HELLO_WORLD)], "hello_world.html", Strip::Keep, vec![]);
    assert_eq!(buf, "Hello, World!");
}

#[test]
fn test_greeting() {
    let user: String = "<World>".to_owned();
    let buf = rendered(
        &[("greeting.html", GREETING)],
        "greeting.html",
        Strip::Keep,
        vec![arg(&user, false)],
    );
    assert_eq!(buf, "<h1>Hello, &#60;World&#62;!</h1>");
}

#[test]
fn test_greeting_raw() {
    let user: String = "<World>".to_owned();
    let buf = rendered(
        &[("greeting-raw.html", GREETING_RAW)],
        "greeting-raw.html",
        Strip::Keep,
        vec![arg(&user, false)],
    );
    assert_eq!(buf, "<h1>Hello, <World>!</h1>");
}

#[test]
fn test_int() {
    let user: i32 = 4711;
    let text = String::from_utf8(nate::fast_integer::format_i64(user as i64)).unwrap();
    let buf = rendered(
        &[("greeting.html", GREETING)],
        "greeting.html",
        Strip::Keep,
        vec![arg(&text, true)],
    );
    assert_eq!(buf, "<h1>Hello, 4711!</h1>");
}

#[test]
fn test_float() {
    let user: f64 = 12300000000000000000000000000000000000000.0;
    let mut ryu_buf = ryu::Buffer::new();
    let text = ryu_buf.format(user).to_owned();
    let buf = rendered(
        &[("greeting.html", GREETING)],
        "greeting.html",
        Strip::Keep,
        vec![arg(&text, true)],
    );
    assert_eq!(buf, "<h1>Hello, 1.23e40!</h1>");
}

#[test]
fn test_cell() {
    let cell = std::cell::RefCell::new("<WORLD>");
    let user: std::cell::Ref<'_, &str> = cell.borrow();
    let buf = rendered(
        &[("greeting.html", GREETING)],
        "greeting.html",
        Strip::Keep,
        vec![arg(&user, false)],
    );
    assert_eq!(buf, "<h1>Hello, &#60;WORLD&#62;!</h1>");
}

// This test would fail if the float fast path were skipped: the default
// float formatting writes the long form, not `1.23e40`.
#[test]
fn test_float_cell() {
    let cell = std::cell::RefCell::new(12300000000000000000000000000000000000000.0_f64);
    let user: std::cell::Ref<'_, f64> = cell.borrow();
    let mut ryu_buf = ryu::Buffer::new();
    let text = ryu_buf.format(*user).to_owned();
    let buf = rendered(
        &[("greeting.html", GREETING)],
        "greeting.html",
        Strip::Keep,
        vec![arg(&text, true)],
    );
    assert_eq!(buf, "<h1>Hello, 1.23e40!</h1>");
}

struct Template;

impl RenderInto for Template {
    fn render_into<W: WriteAny>(&self, output: &mut W) -> Result<(), RenderError> {
        let (srcs, units) = compiled(&[("hello_world.html", HELLO_WORLD)], "hello_world.html", Strip::Keep);
        output.write_bytes(&render_units(&units, &srcs, &vec![]))
    }
}

#[test]
fn test_hello_string() {
    let buf = match Template.render_bytes() {
        Ok(b) => String::from_utf8(b).unwrap(),
        Err(_) => panic!("render failed"),
    };
    assert_eq!(buf, "Hello, World!");
}
