use bucket_hub::fields::FieldMap;
use bucket_hub::models::{copy_events, copy_texts, FieldData, SseEvent};
use bucket_hub::text::{chars_of, find_char, find_text, push_decimal, push_signed_decimal, text_of};

#[test]
fn field_map_keeps_first_order_and_last_value() {
    let mut map: FieldMap<String> = FieldMap::new();
    assert!(map.is_empty());
    assert_eq!(map.len(), 0);
    assert!(map.get("a").is_none());
    map.insert("b".to_string(), "1".to_string());
    map.insert("a".to_string(), "2".to_string());
    map.insert("b".to_string(), "3".to_string());
    assert!(!map.is_empty());
    assert_eq!(map.len(), 2);
    assert_eq!(map.get("b").unwrap(), "3");
    assert_eq!(map.get("a").unwrap(), "2");
    assert!(map.contains_key("a"));
    assert!(!map.contains_key("c"));
    assert!(!map.contains_key(""));
    assert_eq!(map.key_at(0), "b");
    assert_eq!(map.key_at(1), "a");
    assert_eq!(map.value_at(0), "3");
    assert_eq!(map.value_at(1), "2");
}

#[test]
fn field_map_holds_field_data() {
    let mut map: FieldMap<FieldData> = FieldMap::new();
    let field = FieldData { value: "v".to_string(), color: "#000000".to_string() };
    map.insert("k".to_string(), field.clone());
    assert_eq!(map.get("k").unwrap().value, "v");
    assert_eq!(map.get("k").unwrap().color, "#000000");
    assert_eq!(field.value, "v");
}

#[test]
fn decimal_text_of_numbers() {
    let mut text = String::from("n=");
    push_decimal(&mut text, 0);
    assert_eq!(text, "n=0");
    let mut text = String::new();
    push_decimal(&mut text, 9);
    push_decimal(&mut text, 10);
    push_decimal(&mut text, 1234567890);
    assert_eq!(text, "9101234567890");
    let mut text = String::new();
    push_decimal(&mut text, u64::MAX);
    assert_eq!(text, "18446744073709551615");
    let mut text = String::new();
    push_signed_decimal(&mut text, -1);
    push_signed_decimal(&mut text, 0);
    push_signed_decimal(&mut text, 105);
    assert_eq!(text, "-10105");
}

#[test]
fn text_helpers_work_on_characters() {
    let chars = chars_of("a\u{fc}=\u{1f600}b");
    assert_eq!(chars, vec!['a', '\u{fc}', '=', '\u{1f600}', 'b']);
    assert!(chars_of("").is_empty());
    assert_eq!(find_char(&chars, 0, 5, '='), 2);
    assert_eq!(find_char(&chars, 3, 5, '='), 5);
    assert_eq!(find_char(&chars, 0, 2, '='), 2);
    assert_eq!(text_of(&chars, 1, 4), "\u{fc}=\u{1f600}");
    assert_eq!(text_of(&chars, 2, 2), "");
    let texts = vec!["x".to_string(), "y".to_string(), "x".to_string()];
    assert_eq!(find_text(&texts, &"x".to_string()), Some(0));
    assert_eq!(find_text(&texts, &"y".to_string()), Some(1));
    assert_eq!(find_text(&texts, &"z".to_string()), None);
}

#[test]
fn copies_are_equal_to_what_they_copy() {
    let events = vec![SseEvent::log("a".to_string()), SseEvent::suspension(true)];
    let copy = copy_events(&events);
    assert_eq!(copy.len(), 2);
    assert_eq!(copy[0].data, "a");
    assert_eq!(copy[1].event_type, "suspension");
    let texts = vec!["x".to_string(), "y".to_string()];
    assert_eq!(copy_texts(&texts), texts);
}
