use skin_guess::normalize::normalise_name;

#[test]
fn lowercases_and_strips() {
    assert_eq!(normalise_name("Blue Poison"), "bluepoison");
    assert_eq!(normalise_name("Ch'en"), "chen");
    assert_eq!(normalise_name("Rosa-Mundi"), "rosamundi");
    assert_eq!(normalise_name("\"Quoted\""), "quoted");
}

#[test]
fn folds_accented_letters() {
    assert_eq!(normalise_name("Młynar"), "mlynar");
    assert_eq!(normalise_name("Šárka"), "sárka");
}

#[test]
fn empty_input_stays_empty() {
    assert_eq!(normalise_name(""), "");
    assert_eq!(normalise_name(" - ' "), "");
}

#[test]
fn alias_istina_regardless_of_case() {
    assert_eq!(normalise_name("Истина"), "istina");
    assert_eq!(normalise_name("истина"), "istina");
    assert_eq!(normalise_name("ИСТИНА"), "istina");
}

#[test]
fn alias_table_entries() {
    assert_eq!(normalise_name("Зима"), "zima");
    assert_eq!(normalise_name("Гум"), "gummy");
    assert_eq!(normalise_name("Лето"), "leto");
    assert_eq!(normalise_name("Роса"), "rosa");
    assert_eq!(normalise_name("Позёмка"), "pozemka");
    assert_eq!(normalise_name("Eyjafjalla the Hvítaska"), "eyjafjallathehvitaska");
}

#[test]
fn idempotent_on_samples() {
    let samples = [
        "Истина",
        "ИСТИНА",
        "Blue Poison",
        "Młynar",
        "Eyjafjalla the Hvítaska",
        "already-normal",
        "",
        "Mix 'of- \"many\" Things",
        "зима",
        "Позёмка",
    ];
    for s in samples {
        let once = normalise_name(s);
        let twice = normalise_name(&once);
        assert_eq!(twice, once);
    }
}

#[test]
fn untouched_characters_pass_through() {
    assert_eq!(normalise_name("w!?."), "w!?.");
    assert_eq!(normalise_name("12/F"), "12/f");
}

#[test]
fn lowercases_all_of_unicode() {
    assert_eq!(normalise_name("É"), "é");
    assert_eq!(normalise_name("Ä"), "ä");
    assert_eq!(normalise_name("ÉCLAIR"), "éclair");
    assert_eq!(normalise_name("ΛΆΜΔΑ"), "λάμδα");
}

#[test]
fn result_is_its_own_lowercase_form() {
    let samples = ["É", "Ä", "Blue Poison", "Истина", "Šárka", "Młynar", "ΛΆΜΔΑ", "12/F"];
    for s in samples {
        let r = normalise_name(s);
        assert_eq!(r.to_lowercase(), r);
    }
}

#[test]
fn lowercasing_first_never_changes_the_result() {
    let samples = ["É", "Ä", "Blue Poison", "Истина", "Šárka", "Ch'en", "ΛΆΜΔΑ", ""];
    for s in samples {
        assert_eq!(normalise_name(&s.to_lowercase()), normalise_name(s));
    }
}

#[test]
fn repeated_normalization_is_stable() {
    let samples = ["É", "Ä", "Истина", "Eyjafjalla the Hvítaska", "Blue Poison", "ΑΣ ΒΗΤΑ"];
    for s in samples {
        let once = normalise_name(s);
        assert_eq!(normalise_name(&once), once);
    }
}
