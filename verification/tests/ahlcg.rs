use proxynexus::games::ahlcg::{build_cards_and_versions, visible_cards, AhdbCard};

fn card(code: &str, name: &str, type_code: &str, subtype_code: Option<&str>) -> AhdbCard {
    AhdbCard {
        code: code.to_string(),
        name: name.to_string(),
        pack_code: "core".to_string(),
        position: 1,
        type_code: type_code.to_string(),
        faction_code: "neutral".to_string(),
        quantity: Some(1),
        subtype_code: subtype_code.map(|s| s.to_string()),
        hidden: false,
        xp: None,
        subname: None,
        duplicated_by: Vec::new(),
    }
}

fn location(code: &str, name: &str, subname: Option<&str>, pack_code: &str, position: i64) -> AhdbCard {
    AhdbCard {
        pack_code: pack_code.to_string(),
        position,
        subname: subname.map(|s| s.to_string()),
        ..card(code, name, "location", None)
    }
}

fn player_card(code: &str, name: &str, pack_code: &str, position: i64, xp: i64) -> AhdbCard {
    AhdbCard { pack_code: pack_code.to_string(), position, xp: Some(xp), ..card(code, name, "skill", None) }
}

#[test]
fn player_and_encounter_cards_get_the_correct_back_group() {
    let raw = vec![card("01006", "Roland Banks", "investigator", None), card("01121", "Ghoul Priest", "enemy", None)];
    let (cards, versions) = build_cards_and_versions(&raw);
    assert_eq!(cards.len(), 2);
    assert_eq!(versions.len(), 2);
    assert_eq!(cards[0].back_group.as_deref(), Some("player"));
    assert_eq!(cards[1].back_group.as_deref(), Some("encounter"));
}

#[test]
fn a_weakness_carries_the_player_back_even_with_an_encounter_type_code() {
    let raw = vec![
        card("08003", "Mob Goons", "enemy", Some("weakness")),
        card("01015", "Amnesia", "treachery", Some("basicweakness")),
    ];
    let (cards, _) = build_cards_and_versions(&raw);
    assert_eq!(cards[0].back_group.as_deref(), Some("player"));
    assert_eq!(cards[1].back_group.as_deref(), Some("player"));
}

#[test]
fn an_unclassified_type_code_gets_no_back_group() {
    let raw = vec![card("00000", "Mystery", "investigator_choice", None)];
    let (cards, _) = build_cards_and_versions(&raw);
    assert_eq!(cards[0].back_group, None);
}

#[test]
fn an_upgrade_is_a_card_of_its_own_title() {
    let raw = vec![player_card("01039", "Deduction", "core", 39, 0), player_card("02150", "Deduction", "tece", 150, 2)];
    let (cards, _) = build_cards_and_versions(&raw);
    assert_eq!(cards.len(), 2);
    assert_eq!(cards[0].title, "Deduction");
    assert_eq!(cards[0].title_normalized, "deduction");
    assert_eq!(cards[1].title, "Deduction (2)");
    assert_ne!(cards[1].title_normalized, cards[0].title_normalized);
}

#[test]
fn a_title_only_one_card_answers_to_is_left_alone() {
    let raw = vec![card("01001", "Roland Banks", "investigator", None), card("01121", "Ghoul Priest", "enemy", None)];
    let (cards, _) = build_cards_and_versions(&raw);
    assert_eq!(cards[0].title, "Roland Banks");
    assert_eq!(cards[1].title, "Ghoul Priest");
}

#[test]
fn reprints_keep_one_title_between_them() {
    let mut first_printing = player_card("60227", "Seeking Answers", "har", 27, 2);
    first_printing.duplicated_by = vec!["01685".to_string()];
    let raw = vec![first_printing, player_card("01685", "Seeking Answers", "rcore", 685, 2)];
    let (cards, _) = build_cards_and_versions(&raw);
    assert_eq!(cards[0].title, "Seeking Answers (2)");
    assert_eq!(cards[1].title, "Seeking Answers (2)");
    assert_eq!(cards[0].title_normalized, cards[1].title_normalized);
}

#[test]
fn two_cards_of_one_name_are_told_apart_by_their_subtitles() {
    let raw = vec![
        location("03298", "Abbey Tower", Some("The Path is Open"), "bsr", 298),
        location("03299", "Abbey Tower", Some("Spires Forbidden"), "bsr", 299),
    ];
    let (cards, _) = build_cards_and_versions(&raw);
    assert_eq!(cards[0].title, "Abbey Tower (The Path is Open)");
    assert_eq!(cards[1].title, "Abbey Tower (Spires Forbidden)");
}

#[test]
fn a_subtitle_two_cards_share_does_not_separate_them() {
    let raw = vec![
        location("03129", "Historical Society", Some("Record Office"), "eotp", 129),
        location("03138", "Historical Society", Some("Record Office"), "eotp", 138),
    ];
    let (cards, _) = build_cards_and_versions(&raw);
    assert_eq!(cards[0].title, "Historical Society");
    assert_eq!(cards[1].title, "Historical Society (eotp 138)");
}

#[test]
fn a_parallel_investigator_does_not_rename_the_ordinary_one() {
    let mut roland = card("01001", "Roland Banks", "investigator", None);
    roland.subname = Some("The Fed".to_string());
    roland.duplicated_by = vec!["01501".to_string()];
    let mut revised = card("01501", "Roland Banks", "investigator", None);
    revised.subname = Some("The Fed".to_string());
    revised.pack_code = "rcore".to_string();
    let mut parallel = card("90024", "Roland Banks", "investigator", None);
    parallel.subname = Some("The Fed".to_string());
    parallel.pack_code = "btb".to_string();
    parallel.position = 24;
    let (cards, _) = build_cards_and_versions(&[roland, revised, parallel]);
    assert_eq!(cards[0].title, "Roland Banks");
    assert_eq!(cards[1].title, "Roland Banks");
    assert_eq!(cards[2].title, "Roland Banks (btb 24)");
}

#[test]
fn two_faces_at_one_position_fall_back_to_the_code() {
    let raw = vec![
        location("09748a", "Alien Frontier", None, "tskc", 748),
        location("09748b", "Alien Frontier", None, "tskc", 748),
    ];
    let (cards, _) = build_cards_and_versions(&raw);
    assert_eq!(cards[0].title, "Alien Frontier");
    assert_eq!(cards[1].title, "Alien Frontier (09748b)");
}

#[test]
fn a_reprint_reached_through_a_code_not_in_the_list_is_still_one_card() {
    let mut first = player_card("01000", "Lucky", "core", 80, 2);
    first.duplicated_by = vec!["99999".to_string()];
    let mut second = player_card("02000", "Lucky", "dwl", 10, 2);
    second.duplicated_by = vec!["99999".to_string()];
    let (cards, _) = build_cards_and_versions(&[first, second]);
    assert_eq!(cards[0].title, "Lucky (2)");
    assert_eq!(cards[1].title, "Lucky (2)");
}

#[test]
fn a_version_is_one_copy_unless_the_card_says_otherwise_and_sits_at_its_position() {
    let mut raw = card("01006", "Roland Banks", "investigator", None);
    raw.quantity = None;
    raw.position = 6;
    let mut two = card("01020", "Machete", "asset", None);
    two.quantity = Some(2);
    let (_, versions) = build_cards_and_versions(&[raw, two]);
    assert_eq!(versions[0].quantity, 1);
    assert_eq!(versions[0].position, Some(6));
    assert_eq!(versions[0].pack_id, "core");
    assert_eq!(versions[1].quantity, 2);
}

#[test]
fn the_hidden_half_of_a_printing_is_not_a_card() {
    let mut hidden = card("01001b", "Back", "investigator", None);
    hidden.hidden = true;
    let visible = visible_cards(vec![card("01001", "Roland Banks", "investigator", None), hidden]);
    assert_eq!(visible.len(), 1);
    assert_eq!(visible[0].code, "01001");
}
