use nate::assemble::{assemble, Unit};
use nate::compile::{compile, SourceFile};
use nate::render::{render_units, RenderedArg};
use nate::source::Source;
use nate::strip::Strip;

const ESCAPING: &str = "* {{data}}\n* {{{data}}}\n* {{{{data}}}}\n* {{{{{data}}}}}\n";

fn compiled(text: &str) -> (Vec<Source>, Vec<Unit>) {
    let table = vec![SourceFile {
        path: b"escaping.html".to_vec(),
        text: text.as_bytes().to_vec(),
    }];
    let (srcs, items) = match compile(&table, b"escaping.html", Strip::Keep) {
        Ok(p) => p,
        Err(_) => panic!("template did not compile"),
    };
    let units = assemble(&items);
    (srcs, units)
}

#[test]
fn escaping_test_css() {
    let data: &str = r#"Test & <Test> & "test" & 'test'"#;
    let (srcs, units) = compiled(ESCAPING);
    // The four placeholders take, in order, the display, raw display,
    // debug and verbose debug renderings of the bound value.
    let args = vec![
        RenderedArg { text: data.as_bytes().to_vec(), safe: false },
        RenderedArg { text: data.as_bytes().to_vec(), safe: false },
        RenderedArg { text: format!("{:?}", data).into_bytes(), safe: false },
        RenderedArg { text: format!("{:#?}", data).into_bytes(), safe: false },
    ];
    let buf = String::from_utf8(render_units(&units, &srcs, &args)).unwrap();
    assert_eq!(
        buf,
        "\
* Test &#38; &#60;Test&#62; &#38; &#34;test&#34; &#38; &#39;test&#39;\n\
* Test & <Test> & \"test\" & 'test'\n\
* &#34;Test &#38; &#60;Test&#62; &#38; \\&#34;test\\&#34; &#38; &#39;test&#39;&#34;\n\
* &#34;Test &#38; &#60;Test&#62; &#38; \\&#34;test\\&#34; &#38; &#39;test&#39;&#34;\n"
    );
}
