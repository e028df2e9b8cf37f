use skin_guess::catalog::{PartialSkinData, SkinDataResponse, SkinDisplay};

fn record(portrait_id: Option<&str>, model_name: Option<&str>) -> PartialSkinData {
    PartialSkinData {
        portrait_id: portrait_id.map(|s| s.to_string()),
        display_skin: SkinDisplay { model_name: model_name.map(|s| s.to_string()) },
    }
}

#[test]
fn build_keeps_only_usable_records() {
    let response = SkinDataResponse {
        char_skins: vec![
            ("a".to_string(), record(Some("1001"), Some("Tequila"))),
            ("b".to_string(), record(None, Some("Nameless"))),
            ("c".to_string(), record(Some("2002"), None)),
            ("d".to_string(), record(Some("3003"), Some("Истина"))),
        ],
    };
    let catalog = response.build_catalog();
    assert_eq!(catalog.len(), 2);
    assert_eq!(catalog[0].skin_id, "1001");
    assert_eq!(catalog[0].model_name, "tequila");
    assert_eq!(catalog[1].skin_id, "3003");
    assert_eq!(catalog[1].model_name, "istina");
}

#[test]
fn build_drops_names_that_normalize_to_nothing() {
    let response = SkinDataResponse {
        char_skins: vec![
            ("a".to_string(), record(Some("1001"), Some(" - ' "))),
            ("b".to_string(), record(Some("2002"), Some("Kept"))),
        ],
    };
    let catalog = response.build_catalog();
    assert_eq!(catalog.len(), 1);
    assert_eq!(catalog[0].skin_id, "2002");
    assert_eq!(catalog[0].model_name, "kept");
}

#[test]
fn built_names_are_normalized_and_non_empty() {
    let response = SkinDataResponse {
        char_skins: vec![
            ("a".to_string(), record(Some("1"), Some("Blue Poison"))),
            ("b".to_string(), record(Some("2"), Some("Позёмка"))),
            ("c".to_string(), record(Some("3"), Some("Ch'en"))),
        ],
    };
    let catalog = response.build_catalog();
    assert_eq!(catalog.len(), 3);
    for e in &catalog {
        assert!(!e.model_name.is_empty());
        assert_eq!(skin_guess::normalize::normalise_name(&e.model_name), e.model_name);
    }
}
