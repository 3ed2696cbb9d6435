use location_tracker::number::Number;
use location_tracker::parser::{parse, JsonError, JsonParser};
use location_tracker::value::{escape_string, JsonObject, JsonValue};

fn number(text: &str) -> JsonValue {
    JsonValue::Number(Number::new(text).unwrap())
}

#[test]
fn test_parse_string() {
    let json = "\"hello world\"";
    let value = parse(json).unwrap();
    assert_eq!(value, JsonValue::String("hello world".to_string()));
}

#[test]
fn test_parse_number() {
    let json = "42.5";
    let value = parse(json).unwrap();
    assert_eq!(value, number("42.5"));
    assert_eq!(value.as_f64().unwrap().as_str().parse::<f64>().unwrap(), 42.5);
}

#[test]
fn test_parse_bool() {
    assert_eq!(parse("true").unwrap(), JsonValue::Bool(true));
    assert_eq!(parse("false").unwrap(), JsonValue::Bool(false));
}

#[test]
fn test_parse_null() {
    assert_eq!(parse("null").unwrap(), JsonValue::Null);
}

#[test]
fn test_parse_array() {
    let json = "[1, 2, 3]";
    let value = parse(json).unwrap();
    assert!(matches!(value, JsonValue::Array(_)));
    assert_eq!(value, JsonValue::Array(vec![number("1"), number("2"), number("3")]));
}

#[test]
fn test_parse_object() {
    let json = "{\"name\": \"Dubai\", \"country\": \"UAE\"}";
    let value = parse(json).unwrap();
    assert!(matches!(value, JsonValue::Object(_)));
    let map = value.as_object().unwrap();
    assert_eq!(map.len(), 2);
    assert_eq!(map.get("name").unwrap().as_str(), Some("Dubai"));
    assert_eq!(map.get("country").unwrap().as_str(), Some("UAE"));
}

#[test]
fn test_serialize() {
    let value = JsonValue::Object({
        let mut map = JsonObject::new();
        map.insert("test".to_string(), number("123"));
        map
    });
    let json = value.to_string();
    assert!(json.contains("test"));
    assert_eq!(json, "{\"test\":123}");
}

#[test]
fn parser_reports_each_error() {
    assert_eq!(parse("\"abc").unwrap_err(), JsonError::UnexpectedEnd);
    assert_eq!(parse("{\"a\" 1}").unwrap_err(), JsonError::ExpectedColon);
    assert_eq!(parse("[1 x]").unwrap_err(), JsonError::InvalidArray);
    assert_eq!(parse("-abc").unwrap_err(), JsonError::InvalidNumber);
    assert_eq!(parse("1.2.3").unwrap_err(), JsonError::InvalidNumber);
    assert_eq!(parse("[1,").unwrap_err(), JsonError::UnexpectedEnd);
    assert_eq!(parse("").unwrap_err(), JsonError::UnexpectedEnd);
    assert_eq!(parse("{\"a\":1 x}").unwrap_err(), JsonError::InvalidObject);
    assert_eq!(parse("{a:1}").unwrap_err(), JsonError::InvalidKey);
    assert_eq!(parse("tru").unwrap_err(), JsonError::InvalidValue);
    assert_eq!(parse("?").unwrap_err(), JsonError::InvalidValue);
}

#[test]
fn escape_string_writes_the_five_escapes() {
    assert_eq!(escape_string("a\\b\"c\nd\re\tf"), "a\\\\b\\\"c\\nd\\re\\tf");
    assert_eq!(escape_string("plain"), "plain");
}

#[test]
fn parser_walks_a_text_value_by_value() {
    let mut parser = JsonParser::new("  1 [true] ");
    assert_eq!(parser.parse().unwrap(), number("1"));
    assert_eq!(parser.parse().unwrap(), JsonValue::Array(vec![JsonValue::Bool(true)]));
    assert_eq!(parser.parse().unwrap_err(), JsonError::UnexpectedEnd);
}

#[test]
fn unicode_whitespace_and_numerals_are_told_apart() {
    assert_eq!(parse("\u{a0}\u{2003}\u{3000}true").unwrap(), JsonValue::Bool(true));
    assert_eq!(parse("\t\n\r true").unwrap(), JsonValue::Bool(true));
    assert_eq!(parse("\u{200b}true").unwrap_err(), JsonError::InvalidValue);
    assert_eq!(parse("\u{663}").unwrap_err(), JsonError::InvalidNumber);
    assert_eq!(parse("\u{bd}").unwrap_err(), JsonError::InvalidNumber);
    assert_eq!(parse("1\u{663}").unwrap_err(), JsonError::InvalidNumber);
    assert_eq!(parse("x").unwrap_err(), JsonError::InvalidValue);
    assert_eq!(parse("[1\u{a0},\u{a0}2]").unwrap(), JsonValue::Array(vec![number("1"), number("2")]));
}

#[test]
fn number_literals_follow_the_float_grammar() {
    for good in ["0", "-0", "7", "42.5", "1.", "-.5", "1e5", "1E5", "1e+5", "1e-5", "-1.25e-3", "007"] {
        assert_eq!(Number::new(good).unwrap().as_str(), good);
        assert_eq!(parse(good).unwrap(), number(good));
        assert!(good.parse::<f64>().is_ok());
    }
    for bad in ["", "-", ".", "+1", ".5", "1e", "1e+", "1.2.3", "1-2", "--1", "1e5e5", "e5", "1 ", " 1", "abc", "1x"] {
        assert!(Number::new(bad).is_none(), "{}", bad);
    }
    for rejected in ["-", "1e", "1e+", "1.2.3", "1-2", "--1", "1e5e5", "-.", "1+"] {
        assert_eq!(parse(rejected).unwrap_err(), JsonError::InvalidNumber);
        assert!(rejected.parse::<f64>().is_err());
    }
    assert!(Number::new("1").unwrap().same_as(&Number::new("1").unwrap()));
    assert!(!Number::new("1").unwrap().same_as(&Number::new("1.0").unwrap()));
}

#[test]
fn strings_drop_the_backslash_and_keep_what_follows() {
    assert_eq!(parse("\"a\\nb\"").unwrap(), JsonValue::String("anb".to_string()));
    assert_eq!(parse("\"a\\\"b\"").unwrap(), JsonValue::String("a\"b".to_string()));
    assert_eq!(parse("\"a\\\\b\"").unwrap(), JsonValue::String("a\\b".to_string()));
    assert_eq!(parse("\"\\u0041\"").unwrap(), JsonValue::String("u0041".to_string()));
    assert_eq!(parse("\"line\nbreak\"").unwrap(), JsonValue::String("line\nbreak".to_string()));
    assert_eq!(parse("\"abc\\").unwrap_err(), JsonError::UnexpectedEnd);
    assert_eq!(parse("\"\"").unwrap(), JsonValue::String(String::new()));
}

#[test]
fn objects_keep_the_last_value_of_a_key() {
    let value = parse("{\"a\":1,\"b\":2,\"a\":3}").unwrap();
    let map = value.as_object().unwrap();
    assert_eq!(map.len(), 2);
    assert_eq!(map.get("a"), Some(&number("3")));
    assert_eq!(map.get("b"), Some(&number("2")));
    assert_eq!(map.get("c"), None);
    assert_eq!(map.key(0), "a");
    assert_eq!(map.value(0), &number("3"));
    assert_eq!(map.key(1), "b");
    assert_eq!(value.to_string(), "{\"a\":3,\"b\":2}");
    assert_eq!(parse("{}").unwrap(), JsonValue::Object(JsonObject::new()));
    assert_eq!(parse("{ }").unwrap(), JsonValue::Object(JsonObject::new()));
    assert_eq!(parse("[]").unwrap(), JsonValue::Array(Vec::new()));
    assert_eq!(parse("[ ]").unwrap(), JsonValue::Array(Vec::new()));
}

#[test]
fn mappings_are_equal_whatever_their_order() {
    let left = parse("{\"a\":1,\"b\":[true,{\"x\":null,\"y\":\"z\"}]}").unwrap();
    let right = parse("{\"b\":[true,{\"y\":\"z\",\"x\":null}],\"a\":1}").unwrap();
    assert_eq!(left, right);
    assert_ne!(left.to_string(), right.to_string());
    assert_ne!(left, parse("{\"a\":1,\"b\":[true,{\"x\":null,\"y\":\"w\"}]}").unwrap());
    assert_ne!(left, parse("{\"a\":1}").unwrap());
    assert_ne!(parse("[1,2]").unwrap(), parse("[2,1]").unwrap());
    assert_ne!(parse("1").unwrap(), parse("1.0").unwrap());
    assert_ne!(parse("null").unwrap(), parse("false").unwrap());
    assert_eq!(left.clone(), left);
}

#[test]
fn accessors_narrow_or_give_nothing() {
    let text = JsonValue::String("t".to_string());
    assert_eq!(text.as_str(), Some("t"));
    assert!(text.as_f64().is_none());
    assert_eq!(text.as_bool(), None);
    assert!(text.as_array().is_none());
    assert!(text.as_object().is_none());
    assert_eq!(number("2").as_f64().unwrap().as_str(), "2");
    assert_eq!(number("2").as_str(), None);
    assert_eq!(JsonValue::Bool(true).as_bool(), Some(true));
    assert_eq!(JsonValue::Array(vec![JsonValue::Null]).as_array().unwrap().len(), 1);
    assert_eq!(JsonValue::Object(JsonObject::new()).as_object().unwrap().len(), 0);
    assert!(JsonValue::Null.as_object().is_none());
}

#[test]
fn rendering_is_compact_and_escapes_texts() {
    assert_eq!(JsonValue::Null.to_string(), "null");
    assert_eq!(JsonValue::Bool(true).to_string(), "true");
    assert_eq!(JsonValue::Bool(false).to_string(), "false");
    assert_eq!(number("-1.5e3").to_string(), "-1.5e3");
    assert_eq!(JsonValue::String("a\"b\\c\nd".to_string()).to_string(), "\"a\\\"b\\\\c\\nd\"");
    assert_eq!(
        JsonValue::Array(vec![number("1"), JsonValue::Null, JsonValue::Array(Vec::new())]).to_string(),
        "[1,null,[]]"
    );
    let mut map = JsonObject::new();
    map.insert("k\"".to_string(), JsonValue::Array(vec![JsonValue::Bool(false)]));
    map.insert("empty".to_string(), JsonValue::Object(JsonObject::new()));
    assert_eq!(JsonValue::Object(map).to_string(), "{\"k\\\"\":[false],\"empty\":{}}");
}

#[test]
fn parsing_gives_back_what_was_rendered() {
    let mut inner = JsonObject::new();
    inner.insert("quote\"and\\slash".to_string(), number("-0.25"));
    inner.insert("list".to_string(), JsonValue::Array(vec![JsonValue::Null, JsonValue::Bool(true)]));
    let mut outer = JsonObject::new();
    outer.insert("inner".to_string(), JsonValue::Object(inner));
    outer.insert("text".to_string(), JsonValue::String("sp ace, [x] {y}: \u{e9}".to_string()));
    let values = vec![
        JsonValue::Null,
        JsonValue::Bool(false),
        number("12"),
        JsonValue::String(String::new()),
        JsonValue::Array(vec![number("1e9"), JsonValue::Array(vec![JsonValue::String("]".to_string())])]),
        JsonValue::Object(outer),
    ];
    for value in values.iter() {
        let text = value.to_string();
        let back = parse(&text).unwrap();
        assert_eq!(&back, value);
        assert_eq!(back.to_string(), text);
    }
    let with_newline = JsonValue::String("a\nb".to_string());
    assert_eq!(parse(&with_newline.to_string()).unwrap(), JsonValue::String("anb".to_string()));
}

#[test]
fn parser_helpers_look_at_the_cursor() {
    let mut parser = JsonParser::new(" \t null,");
    assert!(!parser.at_end());
    assert!(JsonParser::new("").at_end());
    assert_eq!(parser.current_char(), ' ');
    assert!(!parser.matches_str("null"));
    parser.skip_whitespace();
    assert_eq!(parser.current_char(), 'n');
    assert!(parser.matches_str("null"));
    assert!(parser.matches_str("null,"));
    assert!(!parser.matches_str("null,x"));
    assert!(parser.matches_str(""));
    assert_eq!(parser.parse().unwrap(), JsonValue::Null);
    assert_eq!(parser.current_char(), ',');
    assert_eq!(parser.parse().unwrap_err(), JsonError::InvalidValue);
    assert_eq!(parse("true false").unwrap(), JsonValue::Bool(true));
}
