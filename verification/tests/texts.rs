use sail_kafka::json::{parse_assignment, parse_json, parse_offset_map, Json};
use sail_kafka::map::StringMap;
use sail_kafka::text::{
    decimal_text, eq_ignore_ascii_case, hex_text, is_whitespace, joined, parse_integer, split,
    split_once, starts_with, trim, trim_end_matches,
};

#[test]
fn whitespace_is_that_of_unicode() {
    for c in '\0'..=char::MAX {
        assert_eq!(is_whitespace(c), c.is_whitespace(), "{c:?}");
    }
}

#[test]
fn texts_are_trimmed_and_split() {
    for s in ["", "  ", " a b ", "\u{2003}x\u{3000}", "x"] {
        assert_eq!(trim(s), s.trim());
    }
    for s in ["", "a", "a,b", ",", "a,,b,", "ä,ö"] {
        assert_eq!(split(s, ','), s.split(',').collect::<Vec<_>>());
        let halves = split_once(s, ',');
        let wanted = s.split_once(',').map(|(a, b)| (a.to_string(), b.to_string()));
        assert_eq!(halves, wanted);
        assert_eq!(trim_end_matches(s, ','), s.trim_end_matches(','));
    }
    assert!(starts_with("kafka.x", "kafka."));
    assert!(!starts_with("kafka", "kafka."));
    assert_eq!(joined("a", "ß"), "aß");
}

#[test]
fn case_is_ignored_in_ascii_only() {
    for (a, b) in [("TRUE", "true"), ("tRue", "true"), ("true ", "true"), ("É", "é"), ("", "")] {
        assert_eq!(eq_ignore_ascii_case(a, b), a.eq_ignore_ascii_case(b));
    }
}

#[test]
fn integers_are_read_and_written() {
    for s in [
        "0", "-0", "+0", "007", "-2147483648", "2147483647", "2147483648", "-2147483649", "", "+",
        "-", "1a", " 1", "--1", "99999999999999999999999999",
    ] {
        let read = parse_integer(s, i32::MIN as i128, i32::MAX as i128);
        assert_eq!(read, s.parse::<i32>().ok().map(|n| n as i128), "{s}");
        let read = parse_integer(s, 0, u64::MAX as i128);
        assert_eq!(read, s.parse::<u64>().ok().map(|n| n as i128), "{s}");
    }
    for n in [0i128, 9, 10, -1, -120, i64::MIN as i128, u64::MAX as i128] {
        assert_eq!(decimal_text(n), n.to_string());
    }
    assert_eq!(hex_text(0x1f, 4), "001f");
}

#[test]
fn json_is_read_into_values() {
    let json = parse_json(r#"{"a":[null,true,-3,2.5,18446744073709551615],"b":"x","a2":{}}"#).unwrap();
    match json.entry("a") {
        Some(Json::Array(items)) => {
            assert_eq!(items.len(), 5);
            assert!(matches!(items[0], Json::Null));
            assert!(matches!(items[1], Json::Bool(true)));
            match (&items[2], &items[3], &items[4]) {
                (Json::Number(a), Json::Number(b), Json::Number(c)) => {
                    assert_eq!((a.signed, a.unsigned, a.text.as_str()), (Some(-3), None, "-3"));
                    assert_eq!((b.signed, b.unsigned, b.text.as_str()), (None, None, "2.5"));
                    assert_eq!(c.unsigned, Some(u64::MAX));
                    assert_eq!(c.signed, None);
                }
                other => panic!("unexpected {other:?}"),
            }
        }
        other => panic!("unexpected {other:?}"),
    }
    assert_eq!(json.text_entry("b").unwrap(), "x");
    assert!(json.text_entry("a").is_none());
    assert!(json.entry("c").is_none());
    assert!(matches!(json.entry("a2"), Some(Json::Object(entries)) if entries.is_empty()));
    assert_eq!(parse_json("{").unwrap_err(), "EOF while parsing an object at line 1 column 1");
}

#[test]
fn json_maps_are_read_by_topic() {
    let map = parse_assignment(r#"{"t":[1,2],"u":[-3]}"#).unwrap();
    assert_eq!(map.get("u").unwrap(), &vec![-3]);
    assert!(parse_assignment(r#"{"t":1}"#).unwrap_err().starts_with("invalid type: integer `1`"));
    let map = parse_offset_map(r#"{"t":{"0":5}}"#).unwrap();
    assert_eq!(map.get("t").unwrap().get("0"), Some(&5));
    assert!(parse_offset_map("7").is_err());
}

#[test]
fn maps_keep_the_last_value_and_the_first_place() {
    let mut map = StringMap::from_entries(vec![("a".to_string(), 1i64), ("b".to_string(), 2)]);
    map.insert("a".to_string(), 3);
    map.insert("c".to_string(), 4);
    assert_eq!(map.len(), 3);
    assert_eq!(map.get("a"), Some(&3));
    assert_eq!(map.key_at(0), "a");
    assert_eq!(map.value_at(2), &4);
    assert!(!map.contains_key("d"));
}
