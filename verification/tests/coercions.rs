use app_util::config::{Config, Node};
use app_util::number::truncate;
use app_util::text::{decimal_text, parse_bool, parse_i64, same_text};

fn doc_of(entries: Vec<(&str, Node)>) -> Node {
    Node::Table(entries.into_iter().map(|(k, v)| (k.to_string(), v)).collect())
}

fn text(s: &str) -> Node {
    Node::Text(s.to_string())
}

fn float(x: f64) -> Node {
    Node::Float { bits: x.to_bits(), text: format!("{}", x) }
}

fn scalars() -> Node {
    doc_of(vec![
        ("s", text("hello")),
        ("empty", text("")),
        ("n", Node::Integer(-42)),
        ("f", float(3.75)),
        ("yes", Node::Bool(true)),
        ("no", Node::Bool(false)),
        ("when", Node::Datetime("1979-05-27T07:32:00Z".to_string())),
        ("nothing", Node::Null),
        ("items", Node::List(vec![Node::Integer(1)])),
        ("sub", doc_of(vec![("x", Node::Integer(1))])),
        ("digits", text("123")),
        ("word", text("Yes")),
    ])
}

#[test]
fn str_of_each_kind_of_value() {
    let c = Config::JSON(scalars());
    assert_eq!(c.str("s"), Some("hello".to_string()));
    assert_eq!(c.str("n"), Some("-42".to_string()));
    assert_eq!(c.str("f"), Some("3.75".to_string()));
    assert_eq!(c.str("yes"), Some("true".to_string()));
    assert_eq!(c.str("no"), Some("false".to_string()));
    assert_eq!(c.str("when"), Some("1979-05-27T07:32:00Z".to_string()));
    assert_eq!(c.str("nothing"), None);
    assert_eq!(c.str("items"), None);
    assert_eq!(c.str("sub"), None);
    assert_eq!(c.str("absent"), None);
}

#[test]
fn empty_string_is_absent() {
    let c = Config::TOML(scalars());
    assert_eq!(c.str("empty"), None);
    assert_eq!(c.str("empty"), c.str("absent"));
    assert_eq!(c.str_default("empty", "fallback"), "fallback");
    assert_eq!(c.str_default("empty", "fallback"), c.str_default("absent", "fallback"));
    assert_eq!(c.str_default("empty", ""), "");
}

#[test]
fn empty_number_text_is_absent() {
    let c = Config::JSON(doc_of(vec![("f", Node::Float { bits: 0, text: String::new() })]));
    assert_eq!(c.str("f"), None);
    assert_eq!(c.i64("f"), Some(0));
}

#[test]
fn str_default_and_must() {
    let c = Config::JSON(scalars());
    assert_eq!(c.str_default("s", "d"), "hello");
    assert_eq!(c.str_default("absent", "d"), "d");
    assert_eq!(c.str_default("sub", "d"), "d");
    assert_eq!(c.str_must("s"), "hello");
    assert_eq!(c.str_must("n"), "-42");
}

#[test]
fn boolean_words_any_case() {
    for w in ["YES", "Yes", "y", "true", "TRUE", "True", "t", "T", "Y", "yEs"] {
        assert_eq!(parse_bool(w), Some(true), "{}", w);
    }
    for w in ["no", "N", "false", "FALSE", "f", "F", "n", "No", "fAlSe"] {
        assert_eq!(parse_bool(w), Some(false), "{}", w);
    }
    for w in ["maybe", "", "1", "0", "on", "off", "yess", "tru", " true", "true ", "ye", "nope", "ｙ", "tr\u{fc}e"] {
        assert_eq!(parse_bool(w), None, "{:?}", w);
    }
}

#[test]
fn boolean_words_agree_with_lower_casing() {
    let words = ["true", "yes", "t", "y", "false", "no", "f", "n", "TRUE", "\u{212a}", "\u{130}", "K", "tRuE", "NO", "yEs", "x"];
    for w in words {
        let expected = match w.to_lowercase().as_str() {
            "true" | "yes" | "t" | "y" => Some(true),
            "false" | "no" | "f" | "n" => Some(false),
            _ => None,
        };
        assert_eq!(parse_bool(w), expected, "{:?}", w);
    }
}

#[test]
fn bool_of_each_kind_of_value() {
    let c = Config::JSON(scalars());
    assert_eq!(c.bool("yes"), Some(true));
    assert_eq!(c.bool("no"), Some(false));
    assert_eq!(c.bool("word"), Some(true));
    assert_eq!(c.bool("s"), None);
    assert_eq!(c.bool("n"), None);
    assert_eq!(c.bool("f"), None);
    assert_eq!(c.bool("nothing"), None);
    assert_eq!(c.bool("sub"), None);
    assert_eq!(c.bool("absent"), None);
    assert_eq!(c.bool_default("absent", true), true);
    assert_eq!(c.bool_default("s", false), false);
    assert_eq!(c.bool_default("no", true), false);
    assert_eq!(c.bool_must("word"), true);
}

#[test]
fn i64_of_each_kind_of_value() {
    let c = Config::TOML(scalars());
    assert_eq!(c.i64("n"), Some(-42));
    assert_eq!(c.i64("digits"), Some(123));
    assert_eq!(c.i64("f"), Some(3));
    assert_eq!(c.i64("s"), None);
    assert_eq!(c.i64("yes"), None);
    assert_eq!(c.i64("when"), None);
    assert_eq!(c.i64("nothing"), None);
    assert_eq!(c.i64("items"), None);
    assert_eq!(c.i64("absent"), None);
    assert_eq!(c.i64_default("absent", 9), 9);
    assert_eq!(c.i64_default("s", 9), 9);
    assert_eq!(c.i64_default("n", 9), -42);
    assert_eq!(c.i64_must("digits"), 123);
}

#[test]
fn parse_i64_as_the_standard_parser_does() {
    let inputs = [
        "0", "-0", "+0", "7", "+7", "-7", "007", "-007", "9223372036854775807", "9223372036854775808",
        "-9223372036854775808", "-9223372036854775809", "+9223372036854775807", "99999999999999999999999",
        "-99999999999999999999999", "", "+", "-", "--1", "+-1", "1-", " 1", "1 ", "1_000", "1.0", "0x10", "a",
        "١٢٣", "12a", "000000000000000000000000000001", "-000000000000000000009223372036854775808",
    ];
    for s in inputs {
        assert_eq!(parse_i64(s), s.parse::<i64>().ok(), "{:?}", s);
    }
}

#[test]
fn decimal_text_as_the_standard_formatter_does() {
    let values = [0i64, 1, -1, 9, 10, -10, 99, 100, 12345, -12345, i64::MAX, i64::MIN, i64::MAX - 1, i64::MIN + 1, 1000000007];
    for n in values {
        assert_eq!(decimal_text(n), format!("{}", n));
    }
}

#[test]
fn integer_text_reads_back_as_the_integer() {
    for n in [0i64, 5, -5, 1234567890123, i64::MAX, i64::MIN] {
        let c = Config::JSON(doc_of(vec![("k", Node::Integer(n))]));
        let s = c.str("k").unwrap();
        assert_eq!(parse_i64(&s), c.i64("k"));
        assert_eq!(parse_i64(&s), Some(n));
    }
}

#[test]
fn truncate_as_the_cast_does() {
    let values = [
        0.0f64, -0.0, 0.5, -0.5, 0.999999, 1.0, -1.0, 1.5, -1.5, 3.7, -3.7, 2.0, 1e10, -1e10, 123456789.987,
        4503599627370496.0, 4503599627370497.0, 9007199254740992.0, 9007199254740993.0, 1e15, 1e16, 1e18,
        9223372036854774784.0, 9223372036854775807.0, 9223372036854775808.0, -9223372036854775808.0,
        -9223372036854777856.0, 1e19, -1e19, 1e300, -1e300, f64::MAX, f64::MIN, f64::MIN_POSITIVE,
        f64::EPSILON, 5e-324, -5e-324, f64::INFINITY, f64::NEG_INFINITY, f64::NAN, -f64::NAN,
    ];
    for x in values {
        assert_eq!(truncate(x.to_bits()), x as i64, "{}", x);
    }
}

#[test]
fn truncate_exact_values() {
    assert_eq!(truncate(3.7f64.to_bits()), 3);
    assert_eq!(truncate((-3.7f64).to_bits()), -3);
    assert_eq!(truncate(0x4008_0000_0000_0000), 3);
    assert_eq!(truncate(0x7ff8_0000_0000_0000), 0);
    assert_eq!(truncate(0x7ff0_0000_0000_0000), i64::MAX);
    assert_eq!(truncate(0xfff0_0000_0000_0000), i64::MIN);
    assert_eq!(truncate(0x43e0_0000_0000_0000), i64::MAX);
    assert_eq!(truncate(0xc3e0_0000_0000_0000), i64::MIN);
    assert_eq!(truncate(0x43df_ffff_ffff_ffff), 9223372036854774784);
}

#[test]
fn formats_agree_on_every_accessor() {
    let json = Config::JSON(scalars());
    let toml = Config::TOML(scalars());
    assert_eq!(json.keys(), toml.keys());
    for key in ["s", "empty", "n", "f", "yes", "no", "when", "nothing", "items", "sub", "sub.x", "digits", "word", "absent", ""] {
        assert_eq!(json.str(key), toml.str(key), "{}", key);
        assert_eq!(json.bool(key), toml.bool(key), "{}", key);
        assert_eq!(json.i64(key), toml.i64(key), "{}", key);
        assert_eq!(json.get(key).is_some(), toml.get(key).is_some(), "{}", key);
        assert_eq!(json.str_default(key, "d"), toml.str_default(key, "d"), "{}", key);
    }
}

#[test]
fn same_text_compares_characters() {
    assert!(same_text("", ""));
    assert!(same_text("abc", "abc"));
    assert!(!same_text("abc", "abd"));
    assert!(!same_text("abc", "ab"));
    assert!(!same_text("a", "A"));
}
