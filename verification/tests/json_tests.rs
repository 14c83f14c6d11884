use spldcrdchlscrp::json::{pretty_array_of_lines, quote, str_eq, Json};

#[test]
fn parse_reads_an_object_with_its_members() {
    let json = Json::parse(b"{\"id\": \"7\", \"n\": 12}").unwrap();
    match json {
        Json::Object(members) => {
            assert_eq!(members.len(), 2);
            assert_eq!(members[0].0, "id");
            assert!(matches!(&members[0].1, Json::Str(s) if s == "7"));
            assert_eq!(members[1].0, "n");
            assert!(matches!(&members[1].1, Json::Number(s) if s == "12"));
        }
        other => panic!("not an object: {:?}", other),
    }
}

#[test]
fn parse_reads_every_kind_of_document() {
    assert!(matches!(Json::parse(b"null"), Ok(Json::Null)));
    assert!(matches!(Json::parse(b"true"), Ok(Json::Bool(true))));
    assert!(matches!(Json::parse(b"-3"), Ok(Json::Number(s)) if s == "-3"));
    assert!(matches!(Json::parse(b"1.5"), Ok(Json::Number(s)) if s == "1.5"));
    assert!(matches!(Json::parse(b"\"a\\nb\""), Ok(Json::Str(s)) if s == "a\nb"));
    match Json::parse(b"[1, [], {}]").unwrap() {
        Json::Array(items) => {
            assert_eq!(items.len(), 3);
            assert!(matches!(&items[1], Json::Array(inner) if inner.is_empty()));
            assert!(matches!(&items[2], Json::Object(inner) if inner.is_empty()));
        }
        other => panic!("not an array: {:?}", other),
    }
}

#[test]
fn parse_rejects_a_broken_text() {
    assert!(Json::parse(b"{\"id\": ").is_err());
    assert!(Json::parse(b"").is_err());
    assert!(Json::parse(b"[1] 2").is_err());
    let reason = Json::parse(b"nul").unwrap_err();
    assert!(!reason.is_empty());
}

#[test]
fn get_finds_a_member_by_its_key() {
    let json = Json::parse(b"{\"a\": 1, \"b\": \"two\", \"c\": [3]}").unwrap();
    assert!(matches!(json.get("a"), Some(Json::Number(s)) if s == "1"));
    assert_eq!(json.get_str("b"), Some("two"));
    assert!(json.get("d").is_none());
    assert_eq!(json.get_str("a"), None);
    assert_eq!(json.get("c").and_then(|c| c.as_array()).map(|items| items.len()), Some(1));
}

#[test]
fn get_takes_the_first_of_two_members_with_one_key() {
    let json = Json::Object(vec![
        ("k".to_string(), Json::Str("first".to_string())),
        ("k".to_string(), Json::Str("second".to_string())),
    ]);
    assert_eq!(json.get_str("k"), Some("first"));
}

#[test]
fn accessors_give_nothing_on_another_kind() {
    let text = Json::Str("x".to_string());
    assert!(text.get("x").is_none());
    assert!(text.as_array().is_none());
    assert_eq!(text.as_str(), Some("x"));
    let list = Json::Array(vec![]);
    assert!(list.as_str().is_none());
    assert!(list.get("x").is_none());
}

#[test]
fn str_eq_compares_characters() {
    assert!(str_eq("", ""));
    assert!(str_eq("id", "id"));
    assert!(!str_eq("id", "ids"));
    assert!(!str_eq("id", "ie"));
    assert!(str_eq("grüße", "grüße"));
    assert!(!str_eq("grüße", "grusse"));
}

#[test]
fn quote_writes_a_json_string_literal() {
    assert_eq!(quote("plain"), "\"plain\"");
    assert_eq!(quote(""), "\"\"");
    assert_eq!(quote("a\"b\\c\nd"), "\"a\\\"b\\\\c\\nd\"");
    assert_eq!(quote("\u{1}"), "\"\\u0001\"");
}

#[test]
fn quote_escapes_by_the_table() {
    assert_eq!(quote("\u{8}\t\n\u{c}\r"), "\"\\b\\t\\n\\f\\r\"");
    assert_eq!(quote("\u{0}\u{7}\u{b}\u{e}\u{1f}"), "\"\\u0000\\u0007\\u000b\\u000e\\u001f\"");
    assert_eq!(quote("\u{10}\u{1a}"), "\"\\u0010\\u001a\"");
    assert_eq!(quote(" /'\u{7f}\u{80}\u{e9}\u{2028}\u{1F600}"), "\" /'\u{7f}\u{80}\u{e9}\u{2028}\u{1F600}\"");
    for code in 0u32..0x20 {
        let c = char::from_u32(code).unwrap();
        let literal = quote(&c.to_string());
        assert!(literal.starts_with("\"\\") && literal.ends_with('"'), "on {:?}", c);
        assert!(!literal.contains(c), "on {:?}", c);
    }
}

fn literal_by_the_table(text: &str) -> String {
    let mut out = String::from("\"");
    for c in text.chars() {
        match c {
            '"' => out.push_str("\\\""),
            '\\' => out.push_str("\\\\"),
            '\u{8}' => out.push_str("\\b"),
            '\t' => out.push_str("\\t"),
            '\n' => out.push_str("\\n"),
            '\u{c}' => out.push_str("\\f"),
            '\r' => out.push_str("\\r"),
            c if (c as u32) < 0x20 => out.push_str(&format!("\\u00{:02x}", c as u32)),
            c => out.push(c),
        }
    }
    out.push('"');
    out
}

#[test]
fn quote_writes_every_character_by_the_table() {
    let mut all = String::new();
    for code in (0u32..0x3000).chain(0xd7f0..0xd800).chain(0xe000..0xe010).chain(0x1f600..0x1f610) {
        let c = char::from_u32(code).unwrap();
        assert_eq!(quote(&c.to_string()), literal_by_the_table(&c.to_string()), "on U+{:04X}", code);
        all.push(c);
    }
    assert_eq!(quote(&all), literal_by_the_table(&all));
}

#[test]
fn a_literal_reads_back_as_its_text() {
    for text in ["", "plain", "a\"b\\c", "\u{0}\u{1}\n\r\t\u{8}\u{c}\u{1f}", "gr\u{fc}\u{df}e \u{1F600}", "{\"k\":[1,2]}"] {
        let literal = quote(text);
        assert!(matches!(Json::parse(literal.as_bytes()), Ok(Json::Str(back)) if back == text));
    }
}

#[test]
fn pretty_array_passes_over_lines_that_are_no_json() {
    let lines = vec![
        "{\"a\":1}".to_string(),
        "not json".to_string(),
        "[1,2]".to_string(),
        "".to_string(),
    ];
    let text = pretty_array_of_lines(&lines);
    assert_eq!(text, "[\n  {\n    \"a\": 1\n  },\n  [\n    1,\n    2\n  ]\n]");
}

#[test]
fn pretty_array_of_no_lines_is_an_empty_array() {
    assert_eq!(pretty_array_of_lines(&Vec::new()), "[]");
}
