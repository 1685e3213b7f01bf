use nate::escape::{escape_bytes, EscapeKind, EscapeWrapper, RawKind, XmlEscape};
use nate::fast_integer::{IntKind, ItoaEscape};
use nate::raw_marker::{EscapeTag, RawTag, TagWrapper};

// A safe type resolves to the identity strategy on the tag itself.
#[test]
fn safe_type_picks_raw_strategy() {
    let value: bool = true;
    let tag = EscapeWrapper::new(&value);
    let picked: &bool = (&tag).wrap(&value);
    assert!(*picked);
    assert_eq!(nate::escape::format_bool(*picked), b"true".to_vec());
}

// An integer resolves to the fast decimal strategy, which also sits on
// the tag itself and therefore outranks the fallback.
#[test]
fn integer_picks_fast_path() {
    let value: i64 = -5;
    let tag = EscapeWrapper::new(&value);
    let picked: ItoaEscape<&i64> = (&tag).wrap(&value);
    let rendered = ItoaEscape(*picked.0).rendered();
    assert_eq!(rendered, b"-5".to_vec());
}

// Any other type falls through to the escaping strategy one reference
// level out.
#[test]
fn unsafe_type_falls_back_to_escaping() {
    let value: &str = "<x>";
    let tag = EscapeWrapper::new(&value);
    let picked: XmlEscape<&&str> = (&tag).wrap(&value);
    let rendered = escape_bytes(picked.0.as_bytes());
    assert_eq!(String::from_utf8(rendered).unwrap(), "&#60;x&#62;");
}

// The stand-alone tags carry the same decisions.
#[test]
fn tags_carry_their_decision() {
    let escaped = EscapeTag.wrap("<y>");
    assert_eq!(
        String::from_utf8(escape_bytes(escaped.0.as_bytes())).unwrap(),
        "&#60;y&#62;"
    );
    let _keep_verbatim: RawTag = RawTag;

    let value: bool = false;
    let tag = TagWrapper::new(&value);
    let picked: &bool = (&tag).wrap(&value);
    assert!(!*picked);
}
