use bucket_hub::base64::base64_encode;
use bucket_hub::color_utils::{color_for_string, color_from_digest};
use bucket_hub::json_fields::{json_fields, json_value_to_string, parse_json, JsonMember, JsonValue};
use bucket_hub::legacy_headers::parse_legacy_structured_headers;
use bucket_hub::parsers::{create_fields, ParsedEvent};
use bucket_hub::structured_headers::{
    bare_item_to_string, entry_text, fields_from_dictionary, fields_from_item, fields_from_list,
    has_structure, is_one_bare_word, parse_structured_headers, BareValue, Entry, Member, Param,
};

#[test]
fn test_color_for_string() {
    let color = color_for_string("test");
    assert!(color.starts_with('#'));
    assert_eq!(color.len(), 7);

    // Same input should produce same color
    assert_eq!(color, color_for_string("test"));
}

#[test]
fn test_json_parser() {
    let input = r#"{"level":"info","message":"test","timestamp":1234567890}"#;
    let mut event = ParsedEvent::new(input.to_string());
    event.parse();

    assert_eq!(event.parser, Some("json".to_string()));
    assert!(event.fields.contains_key("level"));
    assert!(event.fields.contains_key("message"));
}

#[test]
fn test_structured_headers_parser() {
    // RFC 8941 Dictionary format: comma-separated key=value pairs
    let input = r#"level=info, message="test message", timestamp=1234567890"#;
    let mut event = ParsedEvent::new(input.to_string());
    event.parse();

    assert_eq!(event.parser, Some("structuredHeaders".to_string()));
    assert!(event.fields.contains_key("level"));
    assert_eq!(event.fields.get("message").unwrap().value, "test message");
}

#[test]
fn test_structured_headers_legacy_semicolons() {
    // Legacy semicolon-separated format (not RFC-compliant but supported)
    let input = "level=info; message=\"test message\"; timestamp=1234567890";
    let mut event = ParsedEvent::new(input.to_string());
    event.parse();

    assert_eq!(event.parser, Some("structuredHeaders".to_string()));
    assert!(event.fields.contains_key("level"));
    assert_eq!(event.fields.get("message").unwrap().value, "test message");
}

#[test]
fn test_plain_text_not_parsed_as_structured() {
    // Plain text should not be parsed as structured data
    let input = "Hello!";
    let mut event = ParsedEvent::new(input.to_string());
    event.parse();

    assert_eq!(event.parser, None);
    assert!(event.fields.is_empty());
}

#[test]
fn color_of_known_text_is_the_start_of_its_digest() {
    // SHA-256("test") begins 9f 86 d0 81.
    assert_eq!(color_for_string("test"), "#9f86d0");
    // SHA-256("") begins e3 b0 c4 42.
    assert_eq!(color_for_string(""), "#e3b0c4");
    assert_ne!(color_for_string("level"), color_for_string("message"));
}

#[test]
fn color_from_digest_writes_lower_case_hex() {
    assert_eq!(color_from_digest(&[0x00, 0x0a, 0xff]), "#000aff");
    assert_eq!(color_from_digest(&[0x12, 0xab, 0x9c, 0x77]), "#12ab9c");
}

#[test]
fn base64_known_vectors() {
    assert_eq!(base64_encode(b""), "");
    assert_eq!(base64_encode(b"f"), "Zg==");
    assert_eq!(base64_encode(b"fo"), "Zm8=");
    assert_eq!(base64_encode(b"foo"), "Zm9v");
    assert_eq!(base64_encode(b"foob"), "Zm9vYg==");
    assert_eq!(base64_encode(b"fooba"), "Zm9vYmE=");
    assert_eq!(base64_encode(b"foobar"), "Zm9vYmFy");
    assert_eq!(base64_encode(&[0xfb, 0xff, 0xbf]), "+/+/");
    assert_eq!(base64_encode(&[0xff, 0xff, 0xfe]), "///+");
}

#[test]
fn legacy_pairs_are_trimmed_and_unquoted() {
    let fields = parse_legacy_structured_headers(" a = 1 ;b='two words';  c = \"x\" ").unwrap();
    assert_eq!(fields.len(), 3);
    assert_eq!(fields.get("a").unwrap(), "1");
    assert_eq!(fields.get("b").unwrap(), "two words");
    assert_eq!(fields.get("c").unwrap(), "x");
}

#[test]
fn legacy_trims_unicode_white_space() {
    let fields = parse_legacy_structured_headers("\u{a0}k\u{2003}=\tv\u{3000}").unwrap();
    assert_eq!(fields.len(), 1);
    assert_eq!(fields.get("k").unwrap(), "v");
}

#[test]
fn legacy_without_equals_is_nothing() {
    assert!(parse_legacy_structured_headers("hello").is_none());
    assert!(parse_legacy_structured_headers("a;b;c").is_none());
    assert!(parse_legacy_structured_headers("").is_none());
}

#[test]
fn legacy_later_key_wins_and_segments_without_equals_are_skipped() {
    let fields = parse_legacy_structured_headers("a=1;junk;a=2;;b=").unwrap();
    assert_eq!(fields.len(), 2);
    assert_eq!(fields.get("a").unwrap(), "2");
    assert_eq!(fields.get("b").unwrap(), "");
}

#[test]
fn legacy_value_keeps_later_equals_and_lone_quote() {
    let fields = parse_legacy_structured_headers("a=b=c;q=\";m='x\"").unwrap();
    assert_eq!(fields.get("a").unwrap(), "b=c");
    assert_eq!(fields.get("q").unwrap(), "\"");
    assert_eq!(fields.get("m").unwrap(), "'x\"");
}

#[test]
fn legacy_empty_key_is_kept() {
    let fields = parse_legacy_structured_headers("=v").unwrap();
    assert_eq!(fields.len(), 1);
    assert_eq!(fields.get("").unwrap(), "v");
}

#[test]
fn scenario_legacy_semicolon_form() {
    let mut event = ParsedEvent::new("a=1;b=2".to_string());
    event.parse();
    assert_eq!(event.parser, Some("structuredHeaders".to_string()));
    assert_eq!(event.fields.len(), 2);
    assert_eq!(event.fields.get("a").unwrap().value, "1");
    assert_eq!(event.fields.get("b").unwrap().value, "2");
    assert_eq!(event.fields.get("a").unwrap().color, color_for_string("a"));
}

#[test]
fn scenario_plain_text_has_no_label_and_no_fields() {
    let mut event = ParsedEvent::at("hello".to_string(), 42);
    event.parse();
    assert_eq!(event.parser, None);
    assert!(event.fields.is_empty());
    assert_eq!(event.time, 42);
    assert_eq!(event.input_string, "hello");
}

#[test]
fn new_event_is_unparsed() {
    let event = ParsedEvent::new("x=1".to_string());
    assert_eq!(event.parser, None);
    assert!(event.fields.is_empty());
    assert_eq!(event.input_string, "x=1");
    assert!(event.time > 1_600_000_000_000);
}

#[test]
fn json_values_are_shown_by_kind() {
    let input = r#"{"s":"text","n":1.5,"i":-7,"t":true,"f":false,"z":null,"a":[1,"x"],"o":{"k":null}}"#;
    let fields = parse_json(input).unwrap();
    assert_eq!(fields.len(), 8);
    assert_eq!(fields.get("s").unwrap(), "text");
    assert_eq!(fields.get("n").unwrap(), "1.5");
    assert_eq!(fields.get("i").unwrap(), "-7");
    assert_eq!(fields.get("t").unwrap(), "true");
    assert_eq!(fields.get("f").unwrap(), "false");
    assert_eq!(fields.get("z").unwrap(), "null");
    assert_eq!(fields.get("a").unwrap(), "[1,\"x\"]");
    assert_eq!(fields.get("o").unwrap(), "{\"k\":null}");
}

#[test]
fn json_that_is_no_object_is_nothing() {
    assert!(parse_json("[1,2]").is_none());
    assert!(parse_json("\"text\"").is_none());
    assert!(parse_json("12").is_none());
    assert!(parse_json("{broken").is_none());
    assert!(parse_json("hello").is_none());
}

#[test]
fn empty_json_object_is_json_without_fields() {
    let mut event = ParsedEvent::new("{}".to_string());
    event.parse();
    assert_eq!(event.parser, Some("json".to_string()));
    assert!(event.fields.is_empty());
}

#[test]
fn json_fields_from_given_members() {
    let members = vec![
        JsonMember { key: "a".to_string(), value: JsonValue::Null },
        JsonMember { key: "b".to_string(), value: JsonValue::Bool(true) },
        JsonMember { key: "a".to_string(), value: JsonValue::Number("3".to_string()) },
        JsonMember { key: "c".to_string(), value: JsonValue::Nested("[]".to_string()) },
    ];
    let fields = json_fields(&members);
    assert_eq!(fields.len(), 3);
    assert_eq!(fields.get("a").unwrap(), "3");
    assert_eq!(fields.get("b").unwrap(), "true");
    assert_eq!(fields.get("c").unwrap(), "[]");
    assert_eq!(json_value_to_string(&JsonValue::Bool(false)), "false");
    assert_eq!(json_value_to_string(&JsonValue::Text("t".to_string())), "t");
}

#[test]
fn bare_values_are_shown_by_kind() {
    assert_eq!(bare_item_to_string(&BareValue::Integer(0)), "0");
    assert_eq!(bare_item_to_string(&BareValue::Integer(-42)), "-42");
    assert_eq!(bare_item_to_string(&BareValue::Integer(999_999_999_999_999)), "999999999999999");
    assert_eq!(bare_item_to_string(&BareValue::Integer(i64::MIN)), "-9223372036854775808");
    assert_eq!(bare_item_to_string(&BareValue::Integer(i64::MAX)), "9223372036854775807");
    assert_eq!(bare_item_to_string(&BareValue::Decimal("1.5".to_string())), "1.5");
    assert_eq!(bare_item_to_string(&BareValue::Text("a b".to_string())), "a b");
    assert_eq!(bare_item_to_string(&BareValue::Token("tok".to_string())), "tok");
    assert_eq!(bare_item_to_string(&BareValue::ByteSequence(b"foo".to_vec())), "Zm9v");
    assert_eq!(bare_item_to_string(&BareValue::Boolean(true)), "true");
    assert_eq!(bare_item_to_string(&BareValue::Boolean(false)), "false");
    assert_eq!(bare_item_to_string(&BareValue::Date(1659578233)), "@1659578233");
    assert_eq!(bare_item_to_string(&BareValue::Date(-5)), "@-5");
    assert_eq!(bare_item_to_string(&BareValue::DisplayText("f\u{fc}".to_string())), "f\u{fc}");
}

fn item(value: BareValue, params: Vec<Param>) -> Entry {
    Entry { inner_list: false, values: vec![value], params }
}

#[test]
fn dictionary_fields_from_given_members() {
    let members = vec![
        Member {
            key: "a".to_string(),
            entry: item(
                BareValue::Integer(1),
                vec![Param { key: "p".to_string(), value: BareValue::Token("x".to_string()) }],
            ),
        },
        Member {
            key: "l".to_string(),
            entry: Entry {
                inner_list: true,
                values: vec![BareValue::Integer(1), BareValue::Text("two".to_string())],
                params: vec![Param { key: "a".to_string(), value: BareValue::Boolean(false) }],
            },
        },
    ];
    let fields = fields_from_dictionary(&members);
    assert_eq!(fields.len(), 3);
    // The later parameter `a` overwrites the member `a`.
    assert_eq!(fields.get("a").unwrap(), "false");
    assert_eq!(fields.get("p").unwrap(), "x");
    assert_eq!(fields.get("l").unwrap(), "1, two");
}

#[test]
fn list_fields_from_given_entries() {
    let entries = vec![
        item(BareValue::Token("a".to_string()), vec![]),
        Entry { inner_list: true, values: vec![], params: vec![] },
        item(
            BareValue::Integer(3),
            vec![Param { key: "q".to_string(), value: BareValue::Integer(9) }],
        ),
    ];
    assert!(has_structure(&entries));
    let fields = fields_from_list(&entries);
    assert_eq!(fields.len(), 3);
    assert_eq!(fields.get("item0").unwrap(), "a");
    assert_eq!(fields.get("item1").unwrap(), "");
    assert_eq!(fields.get("item2").unwrap(), "3");
    assert!(!fields.contains_key("q"));
}

#[test]
fn list_structure_is_judged_by_members() {
    assert!(!has_structure(&vec![]));
    assert!(!has_structure(&vec![item(BareValue::Token("a".to_string()), vec![])]));
    assert!(has_structure(&vec![Entry { inner_list: true, values: vec![], params: vec![] }]));
    assert!(has_structure(&vec![item(
        BareValue::Token("a".to_string()),
        vec![Param { key: "p".to_string(), value: BareValue::Boolean(true) }],
    )]));
    assert!(has_structure(&vec![
        item(BareValue::Token("a".to_string()), vec![]),
        item(BareValue::Token("b".to_string()), vec![]),
    ]));
}

#[test]
fn item_fields_from_given_item() {
    let entry = item(
        BareValue::Decimal("12.445".to_string()),
        vec![Param { key: "foo".to_string(), value: BareValue::Token("bar".to_string()) }],
    );
    let fields = fields_from_item(&entry);
    assert_eq!(fields.len(), 2);
    assert_eq!(fields.get("value").unwrap(), "12.445");
    assert_eq!(fields.get("foo").unwrap(), "bar");
    assert_eq!(entry_text(&entry), "12.445");
}

#[test]
fn structured_dictionary_with_all_kinds() {
    let input = "i=-12, d=1.50, s=\"a \\\"q\\\"\", t=tok/x, b=:Zm9v:, y, n=?0, w=@1659578233, u=%\"f%c3%bc\", l=(1 two \"3\");k=v";
    let fields = parse_structured_headers(input).unwrap();
    assert_eq!(fields.get("i").unwrap(), "-12");
    assert_eq!(fields.get("d").unwrap(), "1.5");
    assert_eq!(fields.get("s").unwrap(), "a \"q\"");
    assert_eq!(fields.get("t").unwrap(), "tok/x");
    assert_eq!(fields.get("b").unwrap(), "Zm9v");
    assert_eq!(fields.get("y").unwrap(), "true");
    assert_eq!(fields.get("n").unwrap(), "false");
    assert_eq!(fields.get("w").unwrap(), "@1659578233");
    assert_eq!(fields.get("u").unwrap(), "f\u{fc}");
    assert_eq!(fields.get("l").unwrap(), "1, two, 3");
    assert_eq!(fields.get("k").unwrap(), "v");
    assert_eq!(fields.len(), 11);
}

#[test]
fn structured_list_with_several_members() {
    let fields = parse_structured_headers("\"a\", \"b\", (1 2)").unwrap();
    assert_eq!(fields.len(), 3);
    assert_eq!(fields.get("item0").unwrap(), "a");
    assert_eq!(fields.get("item1").unwrap(), "b");
    assert_eq!(fields.get("item2").unwrap(), "1, 2");
}

#[test]
fn structured_item_with_parameters() {
    // Every item is also a list of one member, and the list is asked first:
    // the item is filed under its position and its parameters are not kept.
    let fields = parse_structured_headers("\"text\";foo=bar;n=1").unwrap();
    assert_eq!(fields.len(), 1);
    assert_eq!(fields.get("item0").unwrap(), "text");
}

#[test]
fn structured_plain_values_are_nothing() {
    assert!(parse_structured_headers("\"just a string\"").is_none());
    assert!(parse_structured_headers("12.5").is_none());
    assert!(parse_structured_headers("Hello world!").is_none());
    assert!(parse_structured_headers("").is_none());
}

#[test]
fn structured_one_bare_word_is_no_dictionary() {
    assert!(parse_structured_headers("hello").is_none());
    assert!(parse_structured_headers("  hello ").is_none());
    // With a value written out, the same member is a dictionary.
    let fields = parse_structured_headers("hello=?1").unwrap();
    assert_eq!(fields.len(), 1);
    assert_eq!(fields.get("hello").unwrap(), "true");
    // Several bare keys are members that are true.
    let fields = parse_structured_headers("a, b").unwrap();
    assert_eq!(fields.len(), 2);
    assert_eq!(fields.get("a").unwrap(), "true");
    assert_eq!(fields.get("b").unwrap(), "true");
    // A bare key with a parameter keeps the parameter.
    let fields = parse_structured_headers("a;b").unwrap();
    assert_eq!(fields.len(), 2);
    assert_eq!(fields.get("a").unwrap(), "true");
    assert_eq!(fields.get("b").unwrap(), "true");
    let fields = parse_structured_headers("debug, level=info").unwrap();
    assert_eq!(fields.get("debug").unwrap(), "true");
    assert_eq!(fields.get("level").unwrap(), "info");
    // A bare inner list under a key is no bare word.
    let fields = parse_structured_headers("a=()").unwrap();
    assert_eq!(fields.get("a").unwrap(), "");
}

#[test]
fn bare_word_is_judged_on_given_members() {
    let word = |value: BareValue, params: Vec<Param>, inner_list: bool| Member {
        key: "k".to_string(),
        entry: Entry { inner_list, values: vec![value], params },
    };
    assert!(is_one_bare_word(&vec![word(BareValue::Boolean(true), vec![], false)]));
    assert!(!is_one_bare_word(&vec![word(BareValue::Boolean(false), vec![], false)]));
    assert!(!is_one_bare_word(&vec![word(BareValue::Integer(1), vec![], false)]));
    assert!(!is_one_bare_word(&vec![word(BareValue::Boolean(true), vec![], true)]));
    assert!(!is_one_bare_word(&vec![word(
        BareValue::Boolean(true),
        vec![Param { key: "p".to_string(), value: BareValue::Boolean(true) }],
        false,
    )]));
    assert!(!is_one_bare_word(&vec![]));
    assert!(!is_one_bare_word(&vec![
        word(BareValue::Boolean(true), vec![], false),
        word(BareValue::Boolean(true), vec![], false),
    ]));
    assert!(!is_one_bare_word(&vec![Member {
        key: "k".to_string(),
        entry: Entry { inner_list: false, values: vec![], params: vec![] },
    }]));
}

#[test]
fn create_fields_colours_each_key() {
    let data = parse_legacy_structured_headers("level=info;msg=hi").unwrap();
    let fields = create_fields(data);
    assert_eq!(fields.len(), 2);
    assert_eq!(fields.get("level").unwrap().value, "info");
    assert_eq!(fields.get("level").unwrap().color, color_for_string("level"));
    assert_eq!(fields.get("msg").unwrap().value, "hi");
    assert_eq!(fields.get("msg").unwrap().color, color_for_string("msg"));
    assert_eq!(fields.key_at(0), "level");
    assert_eq!(fields.value_at(1).value, "hi");
}

#[test]
fn structured_single_inner_list_is_a_list_with_structure() {
    let fields = parse_structured_headers("(1 2);p=?1").unwrap();
    assert_eq!(fields.len(), 1);
    assert_eq!(fields.get("item0").unwrap(), "1, 2");
    let fields = parse_structured_headers("()").unwrap();
    assert_eq!(fields.get("item0").unwrap(), "");
}

#[test]
fn structured_dictionary_parameters_become_fields() {
    let fields = parse_structured_headers("a=1;x=2;y, b=(1 2);z=\"w\"").unwrap();
    assert_eq!(fields.len(), 5);
    assert_eq!(fields.get("a").unwrap(), "1");
    assert_eq!(fields.get("x").unwrap(), "2");
    assert_eq!(fields.get("y").unwrap(), "true");
    assert_eq!(fields.get("b").unwrap(), "1, 2");
    assert_eq!(fields.get("z").unwrap(), "w");
}

#[test]
fn structured_falls_back_to_the_older_syntax() {
    // Upper-case keys are no dictionary keys, so only the older syntax reads this.
    let fields = parse_structured_headers("Level=Info; Msg='two words'").unwrap();
    assert_eq!(fields.len(), 2);
    assert_eq!(fields.get("Level").unwrap(), "Info");
    assert_eq!(fields.get("Msg").unwrap(), "two words");
}

#[test]
fn json_comes_before_structured_fields() {
    let mut event = ParsedEvent::new("{\"a\":\"b=c\"}".to_string());
    event.parse();
    assert_eq!(event.parser, Some("json".to_string()));
    assert_eq!(event.fields.get("a").unwrap().value, "b=c");
}

#[test]
fn events_are_stamped_with_the_present() {
    let before = std::time::SystemTime::now()
        .duration_since(std::time::UNIX_EPOCH)
        .unwrap()
        .as_millis() as i64;
    let event = ParsedEvent::new("x".to_string());
    let after = std::time::SystemTime::now()
        .duration_since(std::time::UNIX_EPOCH)
        .unwrap()
        .as_millis() as i64;
    assert!(before <= event.time && event.time <= after);
}

#[test]
fn white_space_is_what_unicode_says() {
    // Every character with the White_Space property is trimmed from a key.
    let white = [
        '\u{9}', '\u{a}', '\u{b}', '\u{c}', '\u{d}', ' ', '\u{85}', '\u{a0}', '\u{1680}',
        '\u{2000}', '\u{2001}', '\u{2002}', '\u{2003}', '\u{2004}', '\u{2005}', '\u{2006}',
        '\u{2007}', '\u{2008}', '\u{2009}', '\u{200a}', '\u{2028}', '\u{2029}', '\u{202f}',
        '\u{205f}', '\u{3000}',
    ];
    assert_eq!(white.len(), 25);
    for c in white {
        assert!(c.is_whitespace());
        let fields = parse_legacy_structured_headers(&format!("{}k{}=v", c, c)).unwrap();
        assert_eq!(fields.get("k").unwrap(), "v");
    }
    // Neighbours of the ranges are kept.
    for c in ['\u{8}', '\u{e}', '\u{1f}', '!', '\u{84}', '\u{86}', '\u{200b}', '\u{2027}', '\u{feff}'] {
        assert!(!c.is_whitespace());
        let line = format!("{}k=v", c);
        let fields = parse_legacy_structured_headers(&line).unwrap();
        assert_eq!(fields.get(&format!("{}k", c)).unwrap(), "v");
    }
    // No other character is white space.
    let count = (0..=0x10ffffu32).filter_map(char::from_u32).filter(|c| c.is_whitespace()).count();
    assert_eq!(count, 25);
}
