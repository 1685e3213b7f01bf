use nate::assemble::assemble;
use nate::compile::{compile, SourceFile};
use nate::generate::generate;
use nate::render::{render_units, RenderedArg};
use nate::strip::Strip;

#[test]
fn closing_brace_in_data() {
    let data: &str = "Test äö\\ü";
    let table = vec![SourceFile {
        path: b"closing-brace-in-data.html".to_vec(),
        text: b"{{{{data}}}}\n".to_vec(),
    }];
    let (srcs, items) = match compile(&table, b"closing-brace-in-data.html", Strip::Keep) {
        Ok(p) => p,
        Err(_) => panic!("template did not compile"),
    };
    let units = assemble(&items);
    let args = vec![RenderedArg { text: format!("{:?}", data).into_bytes(), safe: false }];
    let buf = String::from_utf8(render_units(&units, &srcs, &args)).unwrap();
    assert_eq!(buf, "&#34;Test äö\\\\ü&#34;\n");
}

const BOTTLES: &str = "{%-
    for i in (1..=self.limit).rev() {
        if i == 1 {
-%}
1 bottle of beer on the wall.
1 bottle of beer.
Take one down, pass it around.
{%-
        } else {
-%}
{{i}} bottles of beer on the wall.
{{i}} bottles of beer.
Take one down, pass it around.

{%
        }
    }
-%}
";

// The template from the counting song must go through the whole pipeline
// without any scan or generation failure.
#[test]
fn clippy_pedantic_should_be_fine() {
    let table = vec![SourceFile {
        path: b"bottles.html".to_vec(),
        text: BOTTLES.as_bytes().to_vec(),
    }];
    let compiled = compile(&table, b"bottles.html", Strip::Keep);
    let (srcs, items) = match compiled {
        Ok(p) => p,
        Err(_) => panic!("template did not compile"),
    };
    let units = assemble(&items);
    let program = generate(b"Template", &srcs, &units);
    assert!(!program.is_empty());
}
