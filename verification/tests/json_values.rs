use mam_audiofinder::json::{find_entry, json_from_value, parse_json, Json, JsonNumber};
use mam_audiofinder::values::{
    detect_format, extract_string_id, flatten_known, flatten_loose_list, flatten_value,
    join_formats, truthy_value, value_to_string,
};

fn text(s: &str) -> Json {
    Json::Text(s.to_owned())
}

fn read(s: &str) -> Json {
    parse_json(s).unwrap()
}

#[test]
fn json_texts_are_read_as_plain_data() {
    let whole = read(r#"{"b": [null, true, "x"], "a": -3}"#);
    let number = Json::Number(JsonNumber {
        signed: Some(-3),
        unsigned: None,
        bits: Some((-3.0f64).to_bits()),
        text: "-3".to_owned(),
    });
    assert_eq!(whole.get("a"), Some(&number));
    assert_eq!(
        whole.get("b"),
        Some(&Json::Array(vec![Json::Null, Json::Bool(true), text("x")]))
    );
    assert_eq!(whole.get("c"), None);
    assert_eq!(whole.copy(), whole);
    assert_eq!(parse_json("{"), None);
    assert_eq!(parse_json(""), None);
}

#[test]
fn numbers_keep_all_their_readings() {
    match read("18446744073709551615") {
        Json::Number(n) => {
            assert_eq!(n.signed, None);
            assert_eq!(n.unsigned, Some(u64::MAX));
        }
        _ => unreachable!(),
    }
    match json_from_value(serde_json::Value::from(0.5)) {
        Json::Number(n) => {
            assert_eq!((n.signed, n.unsigned), (None, None));
            assert_eq!(n.bits, Some(0.5f64.to_bits()));
            assert_eq!(n.text, "0.5");
        }
        _ => unreachable!(),
    }
}

#[test]
fn entries_are_found_by_their_key() {
    let entries = vec![("a".to_owned(), text("1")), ("b".to_owned(), text("2"))];
    assert_eq!(find_entry(&entries, "b"), Some(&text("2")));
    assert_eq!(find_entry(&entries, "c"), None);
}

#[test]
fn values_become_text() {
    assert_eq!(value_to_string(&Json::Null), "");
    assert_eq!(value_to_string(&Json::Bool(false)), "false");
    assert_eq!(value_to_string(&read("1.50")), "1.5");
    assert_eq!(value_to_string(&text(" x ")), " x ");
    assert_eq!(value_to_string(&read(r#"["a", null, ["b", ""], 7]"#)), "a, b, 7");
    assert_eq!(value_to_string(&read(r#"{"2": "b", "1": "a", "3": {}}"#)), "a, b");
}

#[test]
fn authors_are_read_from_json_in_a_text() {
    let authors = text(r#" {"1": "Ursula K. Le Guin", "2": "Someone"} "#);
    assert_eq!(flatten_value(Some(&authors)), "Ursula K. Le Guin, Someone");
    let same = read(r#"{"1": "Ursula K. Le Guin", "2": "Someone"}"#);
    assert_eq!(flatten_value(Some(&same)), flatten_value(Some(&authors)));
    assert_eq!(flatten_value(Some(&text(r#"["a","b"]"#))), "a, b");
    assert_eq!(flatten_value(None), "");
    assert_eq!(flatten_value(Some(&Json::Null)), "");
    assert_eq!(flatten_value(Some(&Json::Bool(true))), "true");
}

#[test]
fn authors_are_read_from_loose_lists() {
    assert_eq!(flatten_value(Some(&text("{1: \"Ann\", 2: 'Bob'}"))), "Ann, Bob");
    assert_eq!(flatten_value(Some(&text(" Ann , Bob "))), "Ann, Bob");
    assert_eq!(flatten_value(Some(&text("role: a: b"))), "a: b");
    assert_eq!(flatten_value(Some(&text("{}x"))), "x");
    assert_eq!(flatten_loose_list(",,"), ",,");
    assert_eq!(flatten_loose_list("{a:}"), "{a:}");
    assert_eq!(flatten_known("{a}", None), "a");
    assert_eq!(flatten_known("{a}", Some(&text(" b, c "))), "b, c");
    assert_eq!(flatten_known("{a}", Some(&read("[\" b\"]"))), " b");
    assert_eq!(flatten_known("a", Some(&text("b"))), "a");
}

#[test]
fn formats_are_stated_or_found_in_the_name() {
    assert_eq!(detect_format(&read(r#"{"format": " ", "filetype": " m4b "}"#)), "m4b");
    assert_eq!(
        detect_format(&read(r#"{"encoding": "a", "container": "b", "format_name": "c"}"#)),
        "b"
    );
    assert_eq!(detect_format(&read(r#"{"title": "Book [MP3] m4b/mp3 opus1"}"#)), "MP3/M4B");
    assert_eq!(detect_format(&read(r#"{"name": "x.epub", "title": 5}"#)), "EPUB");
    assert_eq!(detect_format(&read(r#"{"title": "none", "name": "x.epub"}"#)), "");
    assert_eq!(detect_format(&Json::Null), "");
}

#[test]
fn formats_are_listed_once() {
    let found = vec!["mp3".to_owned(), "M4B".to_owned(), "Mp3".to_owned()];
    assert_eq!(join_formats(&found), "MP3/M4B");
    assert_eq!(join_formats(&Vec::new()), "");
}

#[test]
fn flags_come_in_many_shapes() {
    for s in ["true", "1", "-1", "\"Yes\""] {
        assert!(truthy_value(Some(&read(s))), "{}", s);
    }
    for s in ["false", "0", "1.0", "18446744073709551615", "\"no\"", "null", "[1]", "{}"] {
        assert!(!truthy_value(Some(&read(s))), "{}", s);
    }
    assert!(!truthy_value(None));
}

#[test]
fn identifiers_come_as_text_or_number() {
    assert_eq!(extract_string_id(Some(&text(" 12 "))), "12");
    assert_eq!(extract_string_id(Some(&read("12"))), "12");
    assert_eq!(extract_string_id(Some(&Json::Null)), "");
    assert_eq!(extract_string_id(Some(&read(r#"[" a"]"#))), "a");
    assert_eq!(extract_string_id(None), "");
}

#[test]
fn raw_json_in_a_text_reads_like_what_it_holds() {
    let raw = |inner: &str| {
        let mut map = serde_json::Map::new();
        map.insert("$serde_json::private::RawValue".to_owned(), serde_json::Value::from(inner));
        serde_json::to_string(&map).unwrap()
    };
    assert_eq!(flatten_value(Some(&text(&raw("\" x\"")))), "x");
    assert_eq!(flatten_value(Some(&text(&raw("[\" x\", 1]")))), " x, 1");
    let twice = raw(&serde_json::to_string(&raw("\" y , z\"")).unwrap());
    assert_eq!(flatten_value(Some(&text(&twice))), "y, z");
    assert_eq!(flatten_value(Some(&text(&raw("7")))), "7");
}
