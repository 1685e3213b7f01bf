use nate::assemble::assemble;
use nate::compile::{compile, SourceFile};
use nate::render::{render_units, RenderedArg};
use nate::strip::Strip;
use std::num::NonZeroU64;

const ESCAPING: &str = "* {{data}}\n* {{{data}}}\n* {{{{data}}}}\n* {{{{{data}}}}}\n";

#[test]
fn test_nonzero() {
    let data = NonZeroU64::new(42).unwrap();
    let table = vec![SourceFile {
        path: b"escaping.html".to_vec(),
        text: ESCAPING.as_bytes().to_vec(),
    }];
    let (srcs, items) = match compile(&table, b"escaping.html", Strip::Keep) {
        Ok(p) => p,
        Err(_) => panic!("template did not compile"),
    };
    let units = assemble(&items);
    let display = nate::fast_integer::format_u64(data.get());
    let args = vec![
        RenderedArg { text: display.clone(), safe: true },
        RenderedArg { text: display.clone(), safe: true },
        RenderedArg { text: format!("{:?}", data).into_bytes(), safe: true },
        RenderedArg { text: format!("{:#?}", data).into_bytes(), safe: true },
    ];
    let buf = String::from_utf8(render_units(&units, &srcs, &args)).unwrap();
    assert_eq!(buf, "* 42\n* 42\n* 42\n* 42\n");
}
