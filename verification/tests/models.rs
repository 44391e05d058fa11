use proxynexus::models::{expand_to_cards, BleedPreference, CardSide, PrintedCard, Printing, SourceImage};

fn printing(pack_id: Option<&str>, variant: Option<&str>, position: Option<i64>) -> Printing {
    Printing {
        card_id: "gandalf_core".into(),
        card_title: "Gandalf".into(),
        is_official: true,
        variant: variant.map(|v| v.to_string()),
        front: CardSide { image_key: None, bleed_image_key: None },
        backs: Vec::new(),
        collection: "enhanced".into(),
        back_group: Some("player".into()),
        pack_id: pack_id.map(|p| p.to_string()),
        date_release: None,
        position,
        linked_card_code: None,
        linked_card_name: None,
        linked_card_back_group: None,
    }
}

#[test]
fn variant_key_uses_the_pack_when_present() {
    assert_eq!(printing(Some("core_set"), None, None).variant_key(), "core_set::enhanced");
}

#[test]
fn variant_key_falls_back_to_the_variant_name() {
    assert_eq!(printing(None, Some("alt1"), None).variant_key(), "alt1::enhanced");
}

#[test]
fn variant_key_falls_back_to_official_with_neither() {
    assert_eq!(printing(None, None, None).variant_key(), "official::enhanced");
}

#[test]
fn variant_key_distinguishes_two_printings_of_one_card_in_one_pack() {
    let gandalf_4 = printing(Some("two_player_limited_edition_starter"), None, Some(4));
    let gandalf_37 = printing(Some("two_player_limited_edition_starter"), None, Some(37));
    assert_eq!(gandalf_4.variant_key(), "two_player_limited_edition_starter:4:enhanced");
    assert_eq!(gandalf_37.variant_key(), "two_player_limited_edition_starter:37:enhanced");
}

#[test]
fn variant_key_spells_a_negative_position() {
    assert_eq!(printing(Some("core"), None, Some(-3)).variant_key(), "core:-3:enhanced");
}

fn side(key: &str) -> CardSide {
    CardSide { image_key: Some(key.to_string()), bleed_image_key: None }
}

fn card(card_id: &str, backs: &[&str]) -> Printing {
    let mut printing = printing(Some("core"), None, None);
    printing.card_id = card_id.to_string();
    printing.front = side(&format!("{}_front", card_id));
    printing.backs = backs.iter().map(|key| side(key)).collect();
    printing
}

fn back_keys<'a>(cards: &[PrintedCard<'a>]) -> Vec<Option<&'a str>> {
    cards.iter().map(|c| c.back.and_then(|b| b.image_key.as_deref())).collect()
}

fn printed(printings: &[Printing]) -> Vec<PrintedCard<'_>> {
    expand_to_cards(printings).into_iter().map(|(_, card)| card).collect()
}

fn both_scans() -> CardSide {
    CardSide { image_key: Some("plain.jpg".into()), bleed_image_key: Some("bled.jpg".into()) }
}

#[test]
fn the_preferred_scan_is_used_when_both_are_present() {
    let side = both_scans();
    assert_eq!(side.image(BleedPreference::Bleed), Some(SourceImage { key: "bled.jpg".into(), has_bleed: true }));
    assert_eq!(side.image(BleedPreference::NoBleed), Some(SourceImage { key: "plain.jpg".into(), has_bleed: false }));
}

#[test]
fn a_side_with_only_a_bled_scan_falls_back_to_it() {
    let mut side = both_scans();
    side.image_key = None;
    assert_eq!(side.image(BleedPreference::NoBleed), Some(SourceImage { key: "bled.jpg".into(), has_bleed: true }));
}

#[test]
fn a_side_with_only_a_plain_scan_falls_back_to_it() {
    let mut side = both_scans();
    side.bleed_image_key = None;
    assert_eq!(side.image(BleedPreference::Bleed), Some(SourceImage { key: "plain.jpg".into(), has_bleed: false }));
}

#[test]
fn a_side_with_no_scan_has_no_image() {
    let side = CardSide::default();
    assert_eq!(side.image(BleedPreference::Bleed), None);
    assert_eq!(side.image(BleedPreference::NoBleed), None);
}

#[test]
fn a_printing_with_no_backs_is_one_single_sided_card() {
    let printing = card("hedge_fund", &[]);
    let cards = printing.cards();
    assert_eq!(cards.len(), 1);
    assert_eq!(cards[0].front.image_key.as_deref(), Some("hedge_fund_front"));
    assert!(cards[0].back.is_none());
}

#[test]
fn a_printing_with_one_back_is_one_double_sided_card() {
    let printing = card("sync", &["sync_back"]);
    let cards = printing.cards();
    assert_eq!(cards.len(), 1);
    assert_eq!(back_keys(&cards), vec![Some("sync_back")]);
}

#[test]
fn several_backs_are_several_cards_sharing_one_front() {
    let printing = card("jinteki", &["b1", "b2", "b3"]);
    let cards = printing.cards();
    assert_eq!(cards.len(), 3);
    assert_eq!(back_keys(&cards), vec![Some("b1"), Some("b2"), Some("b3")]);
    for c in &cards {
        assert_eq!(c.front.image_key.as_deref(), Some("jinteki_front"));
    }
}

#[test]
fn any_number_of_copies_of_a_multi_back_card_prints_one_of_each() {
    for copies in [1, 2, 3, 4, 10] {
        let printings = vec![card("jinteki", &["b1", "b2", "b3"]); copies];
        assert_eq!(back_keys(&printed(&printings)), vec![Some("b1"), Some("b2"), Some("b3")], "copies: {}", copies);
    }
}

#[test]
fn an_ordinary_card_prints_the_number_of_copies_asked_for() {
    for copies in [1, 2, 3] {
        let printings = vec![card("hedge_fund", &[]); copies];
        let cards = printed(&printings);
        assert_eq!(cards.len(), copies, "copies: {}", copies);
        for c in &cards {
            assert_eq!(c.front.image_key.as_deref(), Some("hedge_fund_front"));
            assert!(c.back.is_none());
        }
    }
}

#[test]
fn a_double_sided_card_is_one_card_printed_as_many_times_as_asked() {
    let printings = vec![card("sync", &["sync_back"]); 3];
    assert_eq!(back_keys(&printed(&printings)), vec![Some("sync_back"), Some("sync_back"), Some("sync_back")]);
}

#[test]
fn two_printings_of_one_card_in_one_pack_are_not_copies_of_each_other() {
    let mut first = card("gandalf", &[]);
    first.position = Some(4);
    let mut second = card("gandalf", &[]);
    second.position = Some(37);
    assert_eq!(printed(&[first, second]).len(), 2);
}

#[test]
fn different_cards_are_never_collapsed() {
    let printings = vec![card("jinteki", &["b1", "b2", "b3"]), card("hedge_fund", &[]), card("jinteki", &["b1", "b2", "b3"])];
    assert_eq!(printed(&printings).len(), 7);
}

#[test]
fn expanded_cards_carry_the_index_of_their_printing() {
    let printings = vec![card("jinteki", &["b1", "b2"]), card("hedge_fund", &[])];
    let indices: Vec<usize> = expand_to_cards(&printings).into_iter().map(|(i, _)| i).collect();
    assert_eq!(indices, vec![0, 0, 1]);
}

#[test]
fn a_copy_of_a_printing_is_the_same_printing() {
    let p = card("jinteki", &["b1"]);
    let q = p.duplicate();
    assert!(p.same_as(&q));
    assert_eq!(p, q);
    let mut r = q.duplicate();
    r.position = Some(2);
    assert!(!p.same_as(&r));
}
