use openclaw_listen::json::{parse_bytes, parse_text, render, Json, ObjectBuilder};
use openclaw_listen::level::Level;
use openclaw_listen::text::{
    concat3, contains, decimal_string, ends_with, eq_ignore_ascii_case, is_white_space, join,
    replace, same_text, strip_prefix, to_ascii_lowercase, trim, trim_end_matches,
};

fn document(text: &str) -> Json {
    parse_text(text).expect("a JSON document")
}

#[test]
fn trimming_agrees_with_std() {
    for text in [
        "",
        " ",
        "  a b\t\n",
        "\u{3000}wide\u{a0}",
        "\u{85}x\u{2028}",
        "\u{200b}kept\u{200b}",
        "plain",
    ] {
        assert_eq!(trim(text), text.trim());
        assert_eq!(trim(trim(text)), trim(text));
    }
    for code in 0..0x3100u32 {
        if let Some(c) = char::from_u32(code) {
            assert_eq!(is_white_space(c), c.is_whitespace());
        }
    }
    assert_eq!(trim_end_matches("https://host//", '/'), "https://host");
    assert_eq!(trim_end_matches("///", '/'), "");
}

#[test]
fn case_and_search_agree_with_std() {
    for text in ["Main", "AGENT:Main", "ÄÖÜ", "\u{212a}elvin", ""] {
        assert_eq!(to_ascii_lowercase(text), text.to_ascii_lowercase());
        for other in ["main", ":MAIN", "äöü", "", "kelvin"] {
            assert_eq!(contains(text, other), text.contains(other));
            assert_eq!(ends_with(text, other), text.ends_with(other));
            assert_eq!(eq_ignore_ascii_case(text, other), text.eq_ignore_ascii_case(other));
            assert_eq!(same_text(text, other), text == other);
        }
    }
    assert_eq!(strip_prefix("~/x", "~/").as_deref(), Some("x"));
    assert_eq!(strip_prefix("/x", "~/"), None);
}

#[test]
fn building_text() {
    assert_eq!(concat3("a", "", "é"), "aé");
    assert_eq!(replace("aaaa", "aa", "b"), "bb");
    assert_eq!(replace("xaax", "aa", ""), "xx");
    assert_eq!(replace("é$HOMEé", "$HOME", "/h"), "é/hé");
    let parts = vec!["a".to_string(), String::new(), "c".to_string()];
    assert_eq!(join(&parts, ","), "a,,c");
    assert_eq!(join(&Vec::new(), ","), "");
    for n in [0u64, 7, 10, 909, 1776935117036, u64::MAX] {
        assert_eq!(decimal_string(n), n.to_string());
    }
}

#[test]
fn documents_are_read() {
    let json = document(r#"{"a":{"b":[1,-2,2.5,"x",null,true]},"a2":"t"}"#);
    let items = json.get("a").and_then(|a| a.get("b")).and_then(|b| b.as_array()).unwrap();
    assert_eq!(items.len(), 6);
    assert_eq!(items[0].as_u64(), Some(1));
    assert_eq!(items[1].as_u64(), None);
    assert_eq!(items[2].as_u64(), None);
    assert_eq!(items[3].as_str(), Some("x"));
    assert!(matches!(items[4], Json::Null));
    assert_eq!(items[5].as_bool(), Some(true));
    assert_eq!(json.text_field("a2").as_deref(), Some("t"));
    assert_eq!(json.text_field("a"), None);
    assert!(json.get("missing").is_none());
    assert!(items[3].get("a").is_none());
    assert!(parse_text("{").is_none());
    assert!(parse_bytes(b"[1]").is_some());
    assert!(parse_bytes(&[0xff]).is_none());
}

#[test]
fn the_last_of_doubled_names_counts() {
    let json = document(r#"{"x":1,"x":2}"#);
    assert_eq!(json.get("x").and_then(|x| x.as_u64()), Some(2));
    assert_eq!(render(json), r#"{"x":2}"#);
}

#[test]
fn documents_are_written_in_order_and_read_back() {
    let text = r#"{"z":1,"a":[{"y":"q\"\\"},"line\nfeed",-3],"m":{}}"#;
    assert_eq!(render(document(text)), text);
    let mut builder = ObjectBuilder::new();
    builder.put_text("second", "two");
    builder.put("first", Json::unsigned(u64::MAX));
    builder.put("list", Json::texts(&vec!["p".to_string(), "q".to_string()]));
    builder.put("none", Json::no_items());
    builder.put("nope", Json::Null);
    assert_eq!(
        render(builder.build()),
        r#"{"second":"two","first":18446744073709551615,"list":["p","q"],"none":[],"nope":null}"#
    );
}

#[test]
fn fields_are_taken_out() {
    let (a, b) = document(r#"{"k":0,"b":2,"a":1}"#).take_two("a", "b");
    assert_eq!(a.and_then(|x| x.as_u64()), Some(1));
    assert_eq!(b.and_then(|x| x.as_u64()), Some(2));
    assert!(document("[]").take("a").is_none());
}

#[test]
fn levels_are_ordered_as_their_values() {
    let values = [
        0.0f32,
        -0.0,
        1.0,
        -1.0,
        0.015,
        0.5,
        f32::MIN_POSITIVE,
        1e-45,
        f32::INFINITY,
        f32::NEG_INFINITY,
        f32::NAN,
        -f32::NAN,
        1.0000001,
    ];
    for a in values {
        let level = Level::from_bits(a.to_bits());
        assert_eq!(level.within_unit(), (0.0..=1.0).contains(&a), "{a}");
        for b in values {
            assert_eq!(level.at_least(Level::from_bits(b.to_bits())), a >= b, "{a} {b}");
        }
    }
}
