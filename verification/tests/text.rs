use coaxial::decimal::{parse_u64, u64_to_string};
use coaxial::escape::{encode_double_quoted_attribute, encode_text};
use coaxial::value::{parse_bool, parse_i64, Value};

#[test]
fn integers_render_in_decimal() {
    assert_eq!("0", u64_to_string(0));
    assert_eq!("7", u64_to_string(7));
    assert_eq!("120", u64_to_string(120));
    assert_eq!("18446744073709551615", u64_to_string(u64::MAX));
    assert_eq!("-9223372036854775808", Value::Int(i64::MIN).display());
    assert_eq!("-1", Value::Int(-1).display());
    assert_eq!("true", Value::Bool(true).display());
    assert_eq!("null", Value::Null.display());
}

#[test]
fn numerals_parse_back() {
    assert_eq!(Some(0), parse_u64("0"));
    assert_eq!(Some(120), parse_u64("120"));
    assert_eq!(Some(u64::MAX), parse_u64("18446744073709551615"));
    assert_eq!(None, parse_u64("18446744073709551616"));
    assert_eq!(None, parse_u64(""));
    assert_eq!(None, parse_u64("12a"));
    assert_eq!(None, parse_u64("-3"));

    assert_eq!(Some(-3), parse_i64("-3"));
    assert_eq!(Some(i64::MIN), parse_i64("-9223372036854775808"));
    assert_eq!(None, parse_i64("-9223372036854775809"));
    assert_eq!(Some(i64::MAX), parse_i64("9223372036854775807"));
    assert_eq!(None, parse_i64("-"));

    assert_eq!(Some(true), parse_bool("true"));
    assert_eq!(Some(false), parse_bool("false"));
    assert_eq!(None, parse_bool("True"));
}

#[test]
fn display_then_parse_is_identity() {
    for n in [0i64, 1, 9, 10, 99, 1234567, -1, -10, i64::MAX, i64::MIN] {
        let rendered = Value::Int(n).display();
        assert_eq!(Some(n), parse_i64(&rendered));
    }
}

#[test]
fn text_escaping_replaces_markup_characters() {
    assert_eq!("a&lt;b&amp;c&gt;d", encode_text("a<b&c>d"));
    assert_eq!("plain", encode_text("plain"));
    assert_eq!("", encode_text(""));
    assert_eq!(
        "&quot;quoted&quot; &amp; &lt;tagged&gt;",
        encode_double_quoted_attribute("\"quoted\" & <tagged>")
    );
}
