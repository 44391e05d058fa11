use proxynexus::keyed::{SlotMap, StrMap};
use proxynexus::models::{CardSide, Printing};
use proxynexus::query::apply_variant_overrides;

fn mock_printing(code: &str, is_official: bool, variant: Option<&str>, coll: &str, pack: Option<&str>) -> Printing {
    Printing {
        card_title: "Sure Gamble".into(),
        card_id: code.into(),
        is_official,
        variant: variant.map(|v| v.to_string()),
        front: CardSide { image_key: Some(format!("{}.jpg", code)), bleed_image_key: None },
        backs: Vec::new(),
        collection: coll.into(),
        back_group: Some("runner".into()),
        pack_id: pack.map(|p| p.to_string()),
        date_release: None,
        position: None,
        linked_card_code: None,
        linked_card_name: None,
        linked_card_back_group: None,
    }
}

#[test]
fn test_apply_variant_overrides_global() {
    let base_p = mock_printing("sure_gamble", true, None, "ffg-en", Some("core"));
    let alt_p = mock_printing("sure_gamble", false, Some("alt1"), "standard", None);
    let base = vec![base_p.duplicate(), base_p.duplicate()];
    let mut available = StrMap::new();
    available.insert("sure_gamble".into(), vec![base_p.duplicate(), alt_p.duplicate()]);
    let mut global_overrides = StrMap::new();
    global_overrides.insert("sure_gamble".into(), "alt1::standard".to_string());
    let result = apply_variant_overrides(&base, &available, &global_overrides, &SlotMap::new());
    assert_eq!(result.len(), 2);
    for r in &result {
        assert_eq!(r.variant, Some("alt1".to_string()));
        assert_eq!(r.collection, "standard");
    }
}

#[test]
fn test_apply_variant_overrides_index() {
    let base_p = mock_printing("sure_gamble", true, None, "ffg-en", Some("core"));
    let alt_p = mock_printing("sure_gamble", false, Some("alt1"), "standard", None);
    let base = vec![base_p.duplicate(), base_p.duplicate()];
    let mut available = StrMap::new();
    available.insert("sure_gamble".into(), vec![base_p.duplicate(), alt_p.duplicate()]);
    let mut index_overrides = SlotMap::new();
    index_overrides.insert("sure_gamble".into(), 1, "alt1::standard".to_string());
    let result = apply_variant_overrides(&base, &available, &StrMap::new(), &index_overrides);
    assert_eq!(result.len(), 2);
    assert_eq!(result[0].variant, None);
    assert_eq!(result[0].collection, "ffg-en");
    assert_eq!(result[1].variant, Some("alt1".to_string()));
    assert_eq!(result[1].collection, "standard");
}

#[test]
fn test_apply_variant_overrides_index_precedence() {
    let base_p = mock_printing("sure_gamble", true, None, "ffg-en", Some("core"));
    let alt_p = mock_printing("sure_gamble", false, Some("alt1"), "standard", None);
    let promo_p = mock_printing("sure_gamble", false, Some("promo"), "special", None);
    let base = vec![base_p.duplicate(), base_p.duplicate()];
    let mut available = StrMap::new();
    available.insert("sure_gamble".into(), vec![base_p.duplicate(), alt_p.duplicate(), promo_p.duplicate()]);
    let mut global_overrides = StrMap::new();
    global_overrides.insert("sure_gamble".into(), "alt1::standard".to_string());
    let mut index_overrides = SlotMap::new();
    index_overrides.insert("sure_gamble".into(), 1, "promo::special".to_string());
    let result = apply_variant_overrides(&base, &available, &global_overrides, &index_overrides);
    assert_eq!(result.len(), 2);
    assert_eq!(result[0].variant, Some("alt1".to_string()));
    assert_eq!(result[0].collection, "standard");
    assert_eq!(result[1].variant, Some("promo".to_string()));
    assert_eq!(result[1].collection, "special");
}

#[test]
fn test_apply_variant_overrides_does_not_bleed_across_different_card_ids_sharing_a_title() {
    let hero = mock_printing("vis_hero", true, None, "ffg-en", Some("vision"));
    let alter_ego = mock_printing("vis_alter", true, None, "ffg-en", Some("vision"));
    let hero_alt = mock_printing("vis_hero", false, Some("alt1"), "standard", None);
    let base = vec![hero.duplicate(), alter_ego.duplicate()];
    let mut available = StrMap::new();
    available.insert("sure_gamble".into(), vec![hero.duplicate(), alter_ego.duplicate(), hero_alt.duplicate()]);
    let mut global_overrides = StrMap::new();
    global_overrides.insert("vis_hero".into(), "alt1::standard".to_string());
    let result = apply_variant_overrides(&base, &available, &global_overrides, &SlotMap::new());
    assert_eq!(result.len(), 2);
    assert_eq!(result[0].card_id, "vis_hero");
    assert_eq!(result[0].variant, Some("alt1".to_string()));
    assert_eq!(result[1].card_id, "vis_alter");
    assert_eq!(result[1].variant, None);
}

#[test]
fn an_override_naming_a_variant_not_on_offer_leaves_the_printing_alone() {
    let base_p = mock_printing("sure_gamble", true, None, "ffg-en", Some("core"));
    let base = vec![base_p.duplicate()];
    let mut available = StrMap::new();
    available.insert("sure_gamble".into(), vec![base_p.duplicate()]);
    let mut global_overrides = StrMap::new();
    global_overrides.insert("sure_gamble".into(), "alt9::nowhere".to_string());
    let result = apply_variant_overrides(&base, &available, &global_overrides, &SlotMap::new());
    assert_eq!(result.len(), 1);
    assert_eq!(result[0].variant, None);
    assert_eq!(result[0].collection, "ffg-en");
}

use proxynexus::models::CardRequest;
use proxynexus::packs::AvailablePack;
use proxynexus::query::{format_available_sets, format_query_output};

fn request(title: &str) -> CardRequest {
    CardRequest { title: title.into(), id: "sure_gamble".into(), printing: None, collection: None, position: None }
}

#[test]
fn a_query_counts_each_card_and_lists_its_other_printings() {
    let official = mock_printing("sure_gamble", true, None, "ffg-en", Some("core"));
    let alt = mock_printing("sure_gamble", false, Some("alt1"), "standard", None);
    let mut available = StrMap::new();
    available.insert("sure_gamble".into(), vec![official.duplicate(), alt.duplicate()]);
    let out = format_query_output(&[request("Sure Gamble"), request("Sure Gamble")], &available).unwrap();
    assert_eq!(out, "2x Sure Gamble [core::ffg-en]    # also: [alt1::standard]");
}

#[test]
fn a_query_pads_every_line_with_alternatives_to_the_widest() {
    let official = mock_printing("sure_gamble", true, None, "ffg-en", Some("core"));
    let mut other = mock_printing("diesel", true, None, "ffg-en", Some("core"));
    other.card_title = "Diesel".into();
    let mut available = StrMap::new();
    available.insert("sure_gamble".into(), vec![official.duplicate()]);
    available.insert("diesel".into(), vec![other.duplicate(), mock_printing("diesel", false, Some("x"), "s", None)]);
    let out = format_query_output(&[request("Sure Gamble"), request("Diesel"), request("Unknown")], &available).unwrap();
    let widest = "1x Sure Gamble [core::ffg-en]".len();
    assert_eq!(
        out,
        format!("1x Sure Gamble [core::ffg-en]\n{:widest$}    # also: [x::s]", "1x Diesel [core::ffg-en]")
    );
}

#[test]
fn a_title_with_no_printing_on_offer_is_an_error() {
    let mut available: StrMap<Vec<Printing>> = StrMap::new();
    available.insert("sure_gamble".into(), Vec::new());
    assert!(format_query_output(&[request("Sure Gamble")], &available).is_err());
}

#[test]
fn the_list_of_sets_aligns_names_and_ids() {
    let sets = vec![
        AvailablePack {
            name: "Core Set".into(),
            id: "core".into(),
            date_release: None,
            total: 10,
            printable: 7,
            collections: vec!["5 in nr-ffg".into()],
        },
        AvailablePack {
            name: "What Lies Ahead".into(),
            id: "wla".into(),
            date_release: None,
            total: 3,
            printable: 0,
            collections: Vec::new(),
        },
    ];
    let out = format_available_sets(&sets);
    let first = format!("  - {:15} {:6}    # 7 of 10 \u{2014} 5 in nr-ffg, 2 from other sets", "Core Set", "[core]");
    let second = format!("  - {:15} {:6}    # no printings available", "What Lies Ahead", "[wla]");
    assert_eq!(out, format!("{first}\n{second}"));
}

#[test]
fn the_output_of_a_query_is_a_valid_card_list() {
    use_cardlist_round_trip();
}

fn use_cardlist_round_trip() {
    let official = mock_printing("sure_gamble", true, None, "ffg-en", Some("core"));
    let alt = mock_printing("sure_gamble", false, Some("alt1"), "standard", None);
    let mut available = StrMap::new();
    available.insert("sure_gamble".into(), vec![official.duplicate(), alt.duplicate()]);
    let out = format_query_output(&[request("Sure Gamble"), request("Sure Gamble")], &available).unwrap();
    assert!(proxynexus::cardlist::is_readable_cardlist(&out));
    let entries = proxynexus::cardlist::parse_cardlist(&out).unwrap();
    assert_eq!(entries.len(), 1);
    assert_eq!(entries[0].name, "Sure Gamble");
    assert_eq!(entries[0].quantity, 2);
    assert_eq!(entries[0].printing.as_deref(), Some("core"));
    assert_eq!(entries[0].collection.as_deref(), Some("ffg-en"));
}
