use nate::escape::EscapeWrapper;
use nate::scan::{scan, Block, DataKind};

// First a marker trait for the types the custom escaper handles.

trait MyEscapeMarker {}

impl<T: MyEscapeMarker> MyEscapeMarker for &T {}

enum TerribleXml<'a> {
    Start(&'a str),
    End(&'a str),
    Text(&'a str),
}

impl MyEscapeMarker for TerribleXml<'_> {}

// Then a strategy trait on the tag itself, so that it outranks the
// reference-level escaping fallback at a call site.

trait MyEscapeKind {
    fn wrap<'a>(&self, value: &'a TerribleXml<'a>) -> MyEscaper<'a> {
        MyEscaper { value }
    }
}

impl<T: MyEscapeMarker> MyEscapeKind for EscapeWrapper<T> {}

struct MyEscaper<'a> {
    value: &'a TerribleXml<'a>,
}

impl MyEscaper<'_> {
    fn rendered(&self) -> String {
        match self.value {
            TerribleXml::Start(tag) => format!("<{}>", tag),
            TerribleXml::End(tag) => format!("</{}>", tag),
            TerribleXml::Text(text) => (*text).to_owned(),
        }
    }
}

const TEMPLATE: &str = "{%- for e in self.elems.iter() { -%}{{e}}{%- } -%}";

#[test]
fn test_custom_escaper() {
    // The template is one code loop around one escaped placeholder.
    let blocks = match scan(TEMPLATE.as_bytes(), 0) {
        Ok(b) => b,
        Err(_) => panic!("template did not scan"),
    };
    assert!(matches!(blocks[0], Block::Code(_)));
    assert!(matches!(blocks[1], Block::Data(DataKind::Escaped, _)));
    assert!(matches!(blocks[2], Block::Code(_)));

    let elems = [
        TerribleXml::Text("Hello, "),
        TerribleXml::Start("strong"),
        TerribleXml::Text("world"),
        TerribleXml::End("b"),
        TerribleXml::Text("!"),
    ];
    // Per iteration the generated code wraps the loop variable through
    // the tag; the custom strategy on the tag wins the selection.
    let mut data = String::new();
    for e in elems.iter() {
        let wrapped = (&EscapeWrapper::new(e)).wrap(e);
        data.push_str(&wrapped.rendered());
    }
    assert_eq!(data, "Hello, <strong>world</b>!");
}
