use skin_guess::catalog::SkinData;
use skin_guess::codec::{encode_catalog, parse_catalog, LoadError};

fn entry(id: &str, name: &str) -> SkinData {
    SkinData { skin_id: id.to_string(), model_name: name.to_string() }
}

fn pairs(catalog: &[SkinData]) -> Vec<(String, String)> {
    catalog.iter().map(|e| (e.skin_id.clone(), e.model_name.clone())).collect()
}

#[test]
fn exact_encoding_of_one_entry() {
    let catalog = vec![entry("1001", "tequila")];
    let text = encode_catalog(&catalog);
    assert_eq!(text, "[{\"skinId\":\"1001\",\"modelName\":\"tequila\"}]");
}

#[test]
fn exact_encoding_of_empty_catalog() {
    let catalog: Vec<SkinData> = vec![];
    assert_eq!(encode_catalog(&catalog), "[]");
}

#[test]
fn round_trip_plain_entries() {
    let catalog = vec![entry("1001", "tequila"), entry("2005#6", "istina"), entry("x", "y")];
    let text = encode_catalog(&catalog);
    let back = parse_catalog(&text).unwrap();
    assert_eq!(pairs(&back), pairs(&catalog));
}

#[test]
fn round_trip_empty_catalog() {
    let catalog: Vec<SkinData> = vec![];
    let text = encode_catalog(&catalog);
    let back = parse_catalog(&text).unwrap();
    assert!(back.is_empty());
}

#[test]
fn round_trip_with_escaped_characters() {
    let catalog = vec![entry("a\"b", "c\\d"), entry("\\\"", "\"\\")];
    let text = encode_catalog(&catalog);
    let back = parse_catalog(&text).unwrap();
    assert_eq!(pairs(&back), pairs(&catalog));
}

#[test]
fn parse_accepts_hand_written_catalog() {
    let back = parse_catalog("[{\"skinId\":\"7\",\"modelName\":\"nearl\"}]").unwrap();
    assert_eq!(back.len(), 1);
    assert_eq!(back[0].skin_id, "7");
    assert_eq!(back[0].model_name, "nearl");
}

#[test]
fn control_characters_are_escaped() {
    let catalog = vec![entry("a\nb", "c\td")];
    let text = encode_catalog(&catalog);
    assert_eq!(text, "[{\"skinId\":\"a\\u000Ab\",\"modelName\":\"c\\u0009d\"}]");
    let back = parse_catalog(&text).unwrap();
    assert_eq!(pairs(&back), pairs(&catalog));
}

#[test]
fn round_trip_with_control_characters() {
    let catalog = vec![entry("\u{0}\u{1f}", "x\r\ny")];
    let text = encode_catalog(&catalog);
    let back = parse_catalog(&text).unwrap();
    assert_eq!(pairs(&back), pairs(&catalog));
    let value: serde_json::Value = serde_json::from_str(&text).unwrap();
    assert_eq!(value[0]["modelName"], "x\r\ny");
}

#[test]
fn parse_rejects_bare_control_characters() {
    assert!(parse_catalog("[{\"skinId\":\"a\nb\",\"modelName\":\"c\"}]").is_err());
}

#[test]
fn parse_accepts_only_control_unicode_escapes() {
    let ok = parse_catalog("[{\"skinId\":\"a\\u0009b\",\"modelName\":\"c\"}]").unwrap();
    assert_eq!(ok[0].skin_id, "a\tb");
    assert!(parse_catalog("[{\"skinId\":\"a\\u0041b\",\"modelName\":\"c\"}]").is_err());
    assert!(parse_catalog("[{\"skinId\":\"a\\u00Zb\",\"modelName\":\"c\"}]").is_err());
}

#[test]
fn parse_rejects_corrupt_text() {
    let corrupt = [
        "",
        "[",
        "]",
        "{}",
        "[{]",
        "[{\"skinId\":\"a\"}]",
        "[{\"skinId\":\"a\",\"modelName\":\"b\"}",
        "[{\"skinId\":\"a\",\"modelName\":\"b\"},]",
        "[{\"skinId\":\"a\",\"modelName\":\"b\"}]x",
        "[{\"skinId\":\"a\",\"modelName\":\"b\"] ",
        "[{\"modelName\":\"b\",\"skinId\":\"a\"}]",
        "[{\"skinId\":\"a\",\"modelName\":\"b\\x\"}]",
        "not json at all",
    ];
    for text in corrupt {
        assert_eq!(parse_catalog(text).unwrap_err(), LoadError::Corrupt);
    }
}

#[test]
fn parse_rejects_whitespace_variants() {
    assert!(parse_catalog("[ ]").is_err());
    assert!(parse_catalog("[{\"skinId\": \"a\",\"modelName\":\"b\"}]").is_err());
}

#[test]
fn stored_form_is_plain_json() {
    let catalog = vec![entry("10\"01", "te\\quila")];
    let text = encode_catalog(&catalog);
    let value: serde_json::Value = serde_json::from_str(&text).unwrap();
    assert_eq!(value[0]["skinId"], "10\"01");
    assert_eq!(value[0]["modelName"], "te\\quila");
}
