use skin_guess::catalog::SkinData;
use skin_guess::round::{
    choose_entry, crop_rect, is_guess_command, make_snippet, outcome_message, reply_matches,
    resolve_round, skin_image_url, CropRect, ImageError, RoundOutcome, SelectError,
};

fn entry(id: &str, name: &str) -> SkinData {
    SkinData { skin_id: id.to_string(), model_name: name.to_string() }
}

#[test]
fn crop_rect_exact_values() {
    let c = crop_rect(1000, 800, 801, 645).unwrap();
    assert_eq!(c, CropRect { x: 0, y: 4, w: 200, h: 160 });
}

#[test]
fn crop_rect_stays_inside_bounds() {
    let dims = [(5u32, 5u32), (10, 2000), (1000, 800), (4096, 4096), (123, 457)];
    let draws = [(0u32, 0u32), (1, 1), (999, 999), (u32::MAX, u32::MAX), (17, 4242)];
    for (w, h) in dims {
        for (rx, ry) in draws {
            let c = crop_rect(w, h, rx, ry).unwrap();
            assert!(c.w >= 1 && c.h >= 1);
            assert!(c.w <= 500 && c.h <= 500);
            assert!(c.x + c.w <= w);
            assert!(c.y + c.h <= h);
        }
    }
}

#[test]
fn crop_side_is_capped() {
    let c = crop_rect(5000, 10000, 3, 3).unwrap();
    assert_eq!(c.w, 500);
    assert_eq!(c.h, 500);
}

#[test]
fn crop_rect_rejects_tiny_images() {
    assert_eq!(crop_rect(4, 100, 0, 0).unwrap_err(), ImageError::BadDimensions);
    assert_eq!(crop_rect(100, 4, 0, 0).unwrap_err(), ImageError::BadDimensions);
    assert_eq!(crop_rect(0, 0, 0, 0).unwrap_err(), ImageError::BadDimensions);
}

#[test]
fn empty_catalog_always_refused() {
    let catalog: Vec<SkinData> = vec![];
    for _ in 0..50 {
        assert_eq!(choose_entry(&catalog).unwrap_err(), SelectError::NoCatalogEntries);
    }
}

#[test]
fn singleton_catalog_always_chosen() {
    let catalog = vec![entry("1001", "tequila")];
    for _ in 0..50 {
        let chosen = choose_entry(&catalog).unwrap();
        assert_eq!(chosen.skin_id, "1001");
        assert_eq!(chosen.model_name, "tequila");
    }
}

#[test]
fn chosen_entry_is_a_member() {
    let catalog = vec![entry("1", "a"), entry("2", "b"), entry("3", "c")];
    for _ in 0..50 {
        let chosen = choose_entry(&catalog).unwrap();
        assert!(catalog.iter().any(|e| e.skin_id == chosen.skin_id));
    }
}

#[test]
fn reply_matching_is_normalized() {
    assert!(reply_matches("Tequila", "tequila", false));
    assert!(reply_matches("te quila", "tequila", false));
    assert!(reply_matches("TE-QUILA", "tequila", true));
    assert!(!reply_matches("margarita", "tequila", false));
    assert!(reply_matches("Истина", "istina", false));
}

#[test]
fn skip_only_counts_from_requester() {
    assert!(reply_matches("e!skip", "tequila", true));
    assert!(!reply_matches("e!skip", "tequila", false));
}

#[test]
fn guess_command_is_exact() {
    assert!(is_guess_command("e!guess"));
    assert!(!is_guess_command("e!guess "));
    assert!(!is_guess_command("E!guess"));
}

#[test]
fn outcome_is_exactly_one_of_three() {
    let skip = "e!skip".to_string();
    let answer = "Tequila".to_string();
    let cases = [None, Some(&skip), Some(&answer)];
    for reply in cases {
        let outcome = resolve_round(reply);
        let tally = [RoundOutcome::Solved, RoundOutcome::Skipped, RoundOutcome::TimedOut]
            .iter()
            .filter(|o| **o == outcome)
            .count();
        assert_eq!(tally, 1);
    }
}

#[test]
fn outcomes_per_reply() {
    assert_eq!(resolve_round(None), RoundOutcome::TimedOut);
    let skip = "e!skip".to_string();
    assert_eq!(resolve_round(Some(&skip)), RoundOutcome::Skipped);
    let answer = "Te quila".to_string();
    assert_eq!(resolve_round(Some(&answer)), RoundOutcome::Solved);
}

#[test]
fn image_url_percent_encodes_special_ids() {
    let prefix = "https://raw.githubusercontent.com/yuanyan3060/ArknightsGameResource/refs/heads/main/skin/";
    assert_eq!(skin_image_url("2005#6"), format!("{}2005%236b.png", prefix));
    assert_eq!(skin_image_url("a b"), format!("{}a%20bb.png", prefix));
    assert_eq!(skin_image_url("x?y"), format!("{}x%3Fyb.png", prefix));
    assert_eq!(skin_image_url("char_002_amiya_1"), format!("{}char_002_amiya_1b.png", prefix));
}

#[test]
fn encoded_image_url_parses_with_full_path() {
    let url = reqwest::Url::parse(&skin_image_url("2005#6")).unwrap();
    assert_eq!(url.fragment(), None);
    assert!(url.path().ends_with("/2005%236b.png"));

    let mut by_set_path = reqwest::Url::parse("https://raw.githubusercontent.com").unwrap();
    by_set_path.set_path(
        "yuanyan3060/ArknightsGameResource/refs/heads/main/skin/2005#6b.png",
    );
    assert_eq!(url.path(), by_set_path.path());
}

#[test]
fn resolution_messages_are_exact() {
    let url = skin_image_url("1001");
    assert_eq!(
        url,
        "https://raw.githubusercontent.com/yuanyan3060/ArknightsGameResource/refs/heads/main/skin/1001b.png"
    );
    assert_eq!(outcome_message(RoundOutcome::Solved, "tequila", &url), ":tada:");
    assert_eq!(
        outcome_message(RoundOutcome::Skipped, "tequila", &url),
        format!("[Skipped] It's [tequila]({})", url)
    );
    assert_eq!(
        outcome_message(RoundOutcome::TimedOut, "tequila", &url),
        format!("It's [tequila]({})", url)
    );
}

fn png_bytes(width: u32, height: u32) -> Vec<u8> {
    let img = image::DynamicImage::ImageRgba8(image::RgbaImage::new(width, height));
    let mut cursor = std::io::Cursor::new(Vec::new());
    img.write_to(&mut cursor, image::ImageFormat::Png).unwrap();
    cursor.into_inner()
}

#[test]
fn snippet_of_real_image_has_cropped_dimensions() {
    let bytes = png_bytes(100, 80);
    let snippet = make_snippet(&bytes, 7, 3).unwrap();
    let decoded = image::load_from_memory(&snippet).unwrap();
    assert_eq!(decoded.width(), 20);
    assert_eq!(decoded.height(), 16);
}

#[test]
fn snippet_rejects_undecodable_bytes() {
    let bytes = vec![1u8, 2, 3, 4];
    assert_eq!(make_snippet(&bytes, 0, 0).unwrap_err(), ImageError::Decode);
}

#[test]
fn snippet_rejects_tiny_image() {
    let bytes = png_bytes(4, 4);
    assert_eq!(make_snippet(&bytes, 0, 0).unwrap_err(), ImageError::BadDimensions);
}

#[test]
fn one_entry_round_end_to_end() {
    let catalog = vec![entry("1001", "tequila")];
    let chosen = choose_entry(&catalog).unwrap();
    let answer = chosen.model_name.clone();

    assert!(reply_matches("Tequila", &answer, false));
    assert!(reply_matches("te quila", &answer, false));
    let solved_reply = "Tequila".to_string();
    assert_eq!(resolve_round(Some(&solved_reply)), RoundOutcome::Solved);

    assert_eq!(resolve_round(None), RoundOutcome::TimedOut);
    let url = skin_image_url(&chosen.skin_id);
    let revealed = outcome_message(RoundOutcome::TimedOut, &answer, &url);
    assert!(revealed.contains("[tequila]"));

    let skip_reply = "e!skip".to_string();
    assert!(reply_matches(&skip_reply, &answer, true));
    assert_eq!(resolve_round(Some(&skip_reply)), RoundOutcome::Skipped);
    let skipped = outcome_message(RoundOutcome::Skipped, &answer, &url);
    assert!(skipped.starts_with("[Skipped]"));
    assert!(skipped.contains("[tequila]"));
}
