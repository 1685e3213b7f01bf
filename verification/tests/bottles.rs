use nate::assemble::{assemble, Unit};
use nate::compile::{compile, SourceFile};
use nate::render::{render_units, RenderedArg};
use nate::source::Source;
use nate::strip::Strip;

const EXPECTED: &str = r#"5 bottles of beer on the wall.
5 bottles of beer.
Take one down, pass it around.

4 bottles of beer on the wall.
4 bottles of beer.
Take one down, pass it around.

3 bottles of beer on the wall.
3 bottles of beer.
Take one down, pass it around.

2 bottles of beer on the wall.
2 bottles of beer.
Take one down, pass it around.

1 bottle of beer on the wall.
1 bottle of beer.
Take one down, pass it around."#;

const BOTTLES: &str = "{%-
    for i in (1..=self.limit).rev() {
        if i == 1 {
-%}
1 bottle of beer on the wall.
1 bottle of beer.
Take one down, pass it around.
{%-
        } else {
-%}
{{i}} bottles of beer on the wall.
{{i}} bottles of beer.
Take one down, pass it around.

{%
        }
    }
-%}
";

const BOTTLES_IMPLICIT: &str = "{%- for i in (1..=self.limit).rev() { -%}
{%- if i == 1 { -%}
1 bottle of beer on the wall.
1 bottle of beer.
Take one down, pass it around.
{%-
        } else {
-%}
{{i}} bottles of beer on the wall.
{{i}} bottles of beer.
Take one down, pass it around.

{%
        }
    }
-%}
";

fn compiled(text: &str) -> (Vec<Source>, Vec<Unit>) {
    let table = vec![SourceFile {
        path: b"bottles.html".to_vec(),
        text: text.as_bytes().to_vec(),
    }];
    let (srcs, items) = match compile(&table, b"bottles.html", Strip::Keep) {
        Ok(p) => p,
        Err(_) => panic!("template did not compile"),
    };
    let units = assemble(&items);
    (srcs, units)
}

fn int_arg(i: usize) -> RenderedArg {
    RenderedArg {
        text: nate::fast_integer::format_u64(i as u64),
        safe: true,
    }
}

// Walk the units the way the generated loop would: the singular verse is
// the first formatted write, the plural verse the second, chosen per
// iteration of the descending counter.
fn run_bottles(text: &str, limit: usize) -> String {
    let (srcs, units) = compiled(text);
    let writes: Vec<Unit> = units
        .iter()
        .filter(|u| matches!(u, Unit::Write(_)))
        .cloned()
        .collect();
    assert_eq!(writes.len(), 2);
    let singular = vec![writes[0].clone()];
    let plural = vec![writes[1].clone()];
    let mut out = String::new();
    for i in (1..=limit).rev() {
        if i == 1 {
            out.push_str(&String::from_utf8(render_units(&singular, &srcs, &vec![])).unwrap());
        } else {
            out.push_str(
                &String::from_utf8(render_units(&plural, &srcs, &vec![int_arg(i), int_arg(i)]))
                    .unwrap(),
            );
        }
    }
    out
}

#[test]
fn five_bottles_of_beer() {
    assert_eq!(run_bottles(BOTTLES, 5), EXPECTED);
}

#[test]
fn five_bottles_of_beer_implicit_braces() {
    assert_eq!(run_bottles(BOTTLES_IMPLICIT, 5), EXPECTED);
}
