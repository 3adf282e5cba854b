use eve_wrench::aliases::{set_alias, AliasMap};
use eve_wrench::text::trim;

#[test]
fn set_alias_trims_and_clears() {
    let mut m = AliasMap::new();
    set_alias(&mut m, "1".to_string(), Some("  Bob \t".to_string()));
    assert_eq!(m.get("1").as_deref(), Some("Bob"));
    set_alias(&mut m, "1".to_string(), Some("Carol".to_string()));
    assert_eq!(m.get("1").as_deref(), Some("Carol"));
    set_alias(&mut m, "1".to_string(), Some("   ".to_string()));
    assert_eq!(m.get("1"), None);
    set_alias(&mut m, "2".to_string(), Some("Dan".to_string()));
    set_alias(&mut m, "2".to_string(), None);
    assert_eq!(m.get("2"), None);
}

#[test]
fn set_alias_trims_unicode_white_space() {
    let mut m = AliasMap::new();
    let input = "\u{3000}\u{a0} Bob\u{2003}\r\n";
    set_alias(&mut m, "1".to_string(), Some(input.to_string()));
    assert_eq!(m.get("1").as_deref(), Some(input.trim()));
    assert_eq!(m.get("1").as_deref(), Some("Bob"));
    set_alias(&mut m, "1".to_string(), Some("\u{85}\u{2028}".to_string()));
    assert_eq!(m.get("1"), None);
}

#[test]
fn alias_map_keeps_other_keys() {
    let mut m = AliasMap::new();
    m.insert("a".to_string(), "1".to_string());
    m.insert("b".to_string(), "2".to_string());
    m.insert("a".to_string(), "3".to_string());
    m.remove("b");
    assert_eq!(m.get("a").as_deref(), Some("3"));
    assert_eq!(m.get("b"), None);
    m.remove("zzz");
    assert_eq!(m.get("a").as_deref(), Some("3"));
}

#[test]
fn alias_json_round_trip() {
    let m = AliasMap::from_json("{\"90100001\": \"Bob\", \"2\": \"Main\"}");
    assert_eq!(m.get("90100001").as_deref(), Some("Bob"));
    assert_eq!(m.get("2").as_deref(), Some("Main"));
    let text = m.to_json();
    assert!(text.contains("\"90100001\": \"Bob\""));
    let back = AliasMap::from_json(&text);
    assert_eq!(back.get("2").as_deref(), Some("Main"));
    assert_eq!(back.get("90100001").as_deref(), Some("Bob"));
}

#[test]
fn alias_json_malformed_is_empty() {
    let m = AliasMap::from_json("not json");
    assert_eq!(m.get("1"), None);
    let m = AliasMap::from_json("{\"1\": 5}");
    assert_eq!(m.get("1"), None);
    assert_eq!(AliasMap::new().to_json(), "{}");
}

#[test]
fn trim_matches_std() {
    for text in ["", "  ", "a", " a ", "\t\na b\u{205f}", "\u{200b}x\u{200b}", "\u{1680}\u{3000}y\u{2029}"] {
        assert_eq!(trim(text), text.trim(), "{:?}", text);
    }
}
