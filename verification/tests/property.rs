use bdf::property::{extract, strip_quotes};
use bdf::Property;

#[test]
fn extract_string() {
    // no surrounding quotes
    assert_eq!("test".to_string(), extract(r#"test"#));
    assert_eq!(r#"test"""#.to_string(), extract(r#"test"""#));
    // surrounding quotes
    assert_eq!("hello".to_string(), extract(r#""hello""#));
    assert_eq!(
        r#"this is a "test""#.to_string(),
        extract(r#""this is a ""test""""#)
    );
}

#[test]
fn parse_property() {
    assert_eq!(
        Property::String("Hello World".into()),
        Property::parse(r#""Hello World""#)
    );
    assert_eq!(
        Property::String("Hello World".into()),
        Property::parse(r#"Hello World"#)
    );
    assert_eq!(
        Property::String(r#""Hello"World""#.into()),
        Property::parse(r#"""Hello""World"""#)
    );
    assert_eq!(Property::Integer(41), Property::parse(r#"41"#));
    assert_eq!(Property::String("41".into()), Property::parse(r#""41""#));
}

#[test]
fn strip_quotes_takes_the_inside() {
    assert_eq!(strip_quotes("\"abc\""), Some("abc".to_string()));
    assert_eq!(strip_quotes("  \"abc\"\t"), Some("abc".to_string()));
    assert_eq!(strip_quotes("\"\""), Some(String::new()));
}

#[test]
fn strip_quotes_needs_two_quotes() {
    assert_eq!(strip_quotes("\""), None);
    assert_eq!(strip_quotes("abc"), None);
    assert_eq!(strip_quotes("\"abc"), None);
    assert_eq!(strip_quotes("abc\""), None);
    assert_eq!(strip_quotes(""), None);
}

#[test]
fn extract_keeps_what_is_not_quoted_untrimmed() {
    assert_eq!(extract("  abc "), "  abc ");
    assert_eq!(extract("\""), "\"");
}

#[test]
fn extract_pairs_quotes_from_the_left() {
    assert_eq!(extract("\"a\"\"\"b\""), "a\"\"b");
    assert_eq!(extract("\"\"\"\""), "\"");
}

#[test]
fn parse_property_reads_signed_integers() {
    assert_eq!(Property::parse("-7"), Property::Integer(-7));
    assert_eq!(Property::parse("+7"), Property::Integer(7));
    assert_eq!(
        Property::parse("9223372036854775807"),
        Property::Integer(i64::MAX)
    );
    assert_eq!(
        Property::parse("-9223372036854775808"),
        Property::Integer(i64::MIN)
    );
}

#[test]
fn parse_property_falls_back_to_a_string() {
    assert_eq!(
        Property::parse("9223372036854775808"),
        Property::String("9223372036854775808".into())
    );
    assert_eq!(Property::parse("4 2"), Property::String("4 2".into()));
    assert_eq!(Property::parse(""), Property::String(String::new()));
    assert_eq!(Property::parse("-"), Property::String("-".into()));
}
