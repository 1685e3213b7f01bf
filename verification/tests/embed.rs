use nate::assemble::assemble;
use nate::compile::{compile, SourceFile};
use nate::render::render_units;
use nate::strip::Strip;

fn table(files: &[(&str, &str)]) -> Vec<SourceFile> {
    files
        .iter()
        .map(|(p, t)| SourceFile {
            path: p.as_bytes().to_vec(),
            text: t.as_bytes().to_vec(),
        })
        .collect()
}

#[test]
fn include_test_hello_world() {
    let files = table(&[
        ("a.html", "<1>{< ./b.html >}</1>"),
        ("b.html", "<2>{< ./c.html >}</2>"),
        ("c.html", "<3>"),
    ]);
    let (srcs, items) = match compile(&files, b"a.html", Strip::Keep) {
        Ok(p) => p,
        Err(_) => panic!("template did not compile"),
    };
    let units = assemble(&items);
    let buf = String::from_utf8(render_units(&units, &srcs, &vec![])).unwrap();
    assert_eq!(buf, "<1><2><3></2></1>");
}
