use zksolc_driver::json::{member_named, parse, text_named, Json};

fn text(j: &Json) -> &str {
    match j {
        Json::Text(t) => t.as_str(),
        other => panic!("expected a string, got {:?}", other),
    }
}

#[test]
fn literals() {
    assert!(matches!(parse("null"), Some(Json::Null)));
    assert!(matches!(parse(" true "), Some(Json::Bool(true))));
    assert!(matches!(parse("\n\tfalse\r\n"), Some(Json::Bool(false))));
    assert!(parse("nul").is_none());
    assert!(parse("truee").is_none());
    assert!(parse("True").is_none());
}

#[test]
fn numbers_are_kept_as_written() {
    for n in ["0", "-0", "12", "-12.5", "1e10", "1E+10", "2.5e-3", "0.0"] {
        match parse(n) {
            Some(Json::Number(t)) => assert_eq!(t, n),
            other => panic!("{}: expected a number, got {:?}", n, other),
        }
    }
    for n in ["01", "-", "1.", ".5", "1e", "1e+", "+1", "0x10", "1 2"] {
        assert!(parse(n).is_none(), "{} was accepted", n);
    }
}

#[test]
fn strings_and_escapes() {
    assert_eq!(text(&parse("\"\"").unwrap()), "");
    assert_eq!(text(&parse("\"abc\"").unwrap()), "abc");
    assert_eq!(
        text(&parse(r#""a\"b\\c\/d\be\ff\ng\rh\ti""#).unwrap()),
        "a\"b\\c/d\u{8}e\u{c}f\ng\rh\ti"
    );
    assert_eq!(text(&parse("\"\\u0041\\u00e9\\u20AC\"").unwrap()), "A\u{e9}\u{20ac}");
    assert_eq!(text(&parse("\"\\ud83d\\ude00\"").unwrap()), "\u{1f600}");
    assert_eq!(text(&parse("\"\\uD83D\\uDE00!\"").unwrap()), "\u{1f600}!");
    assert_eq!(text(&parse("\"\\u0000\\u001f\"").unwrap()), "\u{0}\u{1f}");
    assert_eq!(text(&parse("\"\u{1f600} ok\"").unwrap()), "\u{1f600} ok");
}

#[test]
fn bad_strings_are_refused() {
    assert!(parse("\"abc").is_none());
    assert!(parse("\"a\nb\"").is_none());
    assert!(parse(r#""\x""#).is_none());
    assert!(parse(r#""\u12""#).is_none());
    assert!(parse(r#""\u12G4""#).is_none());
    assert!(parse(r#""\ud83d""#).is_none());
    assert!(parse(r#""\ud83dabc""#).is_none());
    assert!(parse(r#""\ude00""#).is_none());
    assert!(parse(r#""\ud83dA""#).is_none());
}

#[test]
fn arrays() {
    match parse("[]") {
        Some(Json::Array(items)) => assert!(items.is_empty()),
        other => panic!("got {:?}", other),
    }
    match parse("[ 1 , \"two\" , [ null ] ]") {
        Some(Json::Array(items)) => {
            assert_eq!(items.len(), 3);
            assert!(matches!(&items[0], Json::Number(n) if n == "1"));
            assert_eq!(text(&items[1]), "two");
            match &items[2] {
                Json::Array(inner) => {
                    assert_eq!(inner.len(), 1);
                    assert!(matches!(inner[0], Json::Null));
                }
                other => panic!("got {:?}", other),
            }
        }
        other => panic!("got {:?}", other),
    }
    assert!(parse("[1,]").is_none());
    assert!(parse("[,1]").is_none());
    assert!(parse("[1 2]").is_none());
    assert!(parse("[1").is_none());
    assert!(parse("]").is_none());
}

#[test]
fn objects_keep_order_and_last_member_wins() {
    match parse(r#"{ "b" : 1, "a" : "x", "b" : "y" }"#) {
        Some(Json::Object(members)) => {
            assert_eq!(members.len(), 3);
            assert_eq!(members[0].name, "b");
            assert_eq!(members[1].name, "a");
            assert_eq!(members[2].name, "b");
            assert_eq!(text(member_named(&members, "b").unwrap()), "y");
            assert_eq!(text_named(&members, "a").unwrap(), "x");
            assert!(member_named(&members, "c").is_none());
        }
        other => panic!("got {:?}", other),
    }
    match parse("{}") {
        Some(Json::Object(members)) => assert!(members.is_empty()),
        other => panic!("got {:?}", other),
    }
    assert!(parse(r#"{"a":1,}"#).is_none());
    assert!(parse(r#"{"a" 1}"#).is_none());
    assert!(parse(r#"{a:1}"#).is_none());
    assert!(parse(r#"{"a":}"#).is_none());
    assert!(parse(r#"{"a":1"#).is_none());
}

#[test]
fn text_around_the_value_is_refused() {
    assert!(parse("").is_none());
    assert!(parse("   ").is_none());
    assert!(parse("{} x").is_none());
    assert!(parse("x {}").is_none());
    assert!(parse("{}{}").is_none());
}

#[test]
fn nesting_is_bounded() {
    let deep_ok = format!("{}{}", "[".repeat(128), "]".repeat(128));
    assert!(parse(&deep_ok).is_some());
    let too_deep = format!("{}{}", "[".repeat(129), "]".repeat(129));
    assert!(parse(&too_deep).is_none());
}

#[test]
fn duplicate_is_a_faithful_copy() {
    let value = parse(r#"{"a":[1,{"b":"c"},null,true],"d":-2.5e3}"#).unwrap();
    let copy = value.duplicate();
    assert_eq!(format!("{:?}", value), format!("{:?}", copy));
}
