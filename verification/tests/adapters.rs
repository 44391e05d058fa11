use proxynexus::card_store::normalize_title;
use proxynexus::games::agot1st::{self, Agot1stCard};
use proxynexus::games::coclcg::{self, CocCard, CocVersion};
use proxynexus::games::cohccg::{self, CohCard};
use proxynexus::games::whconquest::{self, WhcCard};
use proxynexus::games::netrunner_reboot::{self, RebootCard};
use proxynexus::games::whinvasion::{self, WhiCard};

fn agot1st_card(unique_id: &str, name: &str, pack_code: &str, card_type: &str, house: &str) -> Agot1stCard {
    Agot1stCard {
        unique_id: unique_id.to_string(),
        name: name.to_string(),
        label: name.to_string(),
        pack_code: pack_code.to_string(),
        card_type: card_type.to_string(),
        house: house.to_string(),
        card_quantity: Some(3),
        card_number: Some(1),
    }
}

fn coc_version(pack_code: &str, number: i64) -> CocVersion {
    CocVersion { pack_code: pack_code.to_string(), number: Some(number), quantity: 3 }
}

fn coc_card(unique_id: &str, back_group: &str, versions: Vec<CocVersion>) -> CocCard {
    CocCard {
        unique_id: unique_id.to_string(),
        name: format!("Card {unique_id}"),
        subtitle: None,
        card_type: "Character".to_string(),
        faction: "Miskatonic".to_string(),
        back_group: back_group.to_string(),
        versions,
    }
}

fn coh_card(id: &str, pack_code: &str, number: i64, rarity: &str) -> CohCard {
    CohCard {
        id: id.to_string(),
        name: format!("Card {id}"),
        pack_code: pack_code.to_string(),
        number,
        card_type: "power".to_string(),
        rarity: rarity.to_string(),
    }
}

fn whc_card(unique_id: &str, card_type: &str) -> WhcCard {
    WhcCard {
        unique_id: unique_id.to_string(),
        name: format!("Card {unique_id}"),
        pack_code: "core-set".to_string(),
        card_type: card_type.to_string(),
        faction: "Ork".to_string(),
        card_number: Some(1),
        card_quantity: 3,
    }
}

fn whi_card(unique_id: &str, card_type: &str, race: &str) -> WhiCard {
    WhiCard {
        unique_id: unique_id.to_string(),
        name: format!("Card {unique_id}"),
        pack_code: "core-set".to_string(),
        card_type: card_type.to_string(),
        race: race.to_string(),
        card_quantity: Some(3),
        card_number: Some(1),
    }
}

#[test]
fn adapter_maps_unique_id_and_pack_code_onto_card_and_version() {
    let (cards, versions) = agot1st::build_cards_and_versions(&[agot1st_card(
        "16120",
        "Favored by the Warrior",
        "a-journey-s-end",
        "Event",
        "Neutral",
    )]);
    assert_eq!(cards.len(), 1);
    assert_eq!(versions.len(), 1);
    assert_eq!(cards[0].id, "16120");
    assert_eq!(cards[0].title, "Favored by the Warrior");
    assert_eq!(cards[0].back_group.as_deref(), Some("card"));
    assert_eq!(versions[0].card_id, "16120");
    assert_eq!(versions[0].pack_id, "a-journey-s-end");

    let (cards, versions) = coclcg::build_cards_and_versions(&[coc_card("hastur", "card", vec![coc_version("core-set", 81)])]);
    assert_eq!(cards.len(), 1);
    assert_eq!(versions.len(), 1);
    assert_eq!(cards[0].id, "hastur");
    assert_eq!(cards[0].title, "Card hastur");
    assert_eq!(cards[0].back_group.as_deref(), Some("card"));
    assert_eq!(versions[0].card_id, "hastur");
    assert_eq!(versions[0].pack_id, "core-set");
    assert_eq!(versions[0].quantity, 3);
    assert_eq!(versions[0].position, Some(81));

    let (cards, versions) = whconquest::build_cards_and_versions(&[whc_card("acid-maw", "Army")]);
    assert_eq!(cards.len(), 1);
    assert_eq!(versions.len(), 1);
    assert_eq!(cards[0].id, "acid-maw");
    assert_eq!(cards[0].title, "Card acid-maw");
    assert_eq!(cards[0].back_group.as_deref(), Some("card"));
    assert_eq!(versions[0].card_id, "acid-maw");
    assert_eq!(versions[0].pack_id, "core-set");
    assert_eq!(versions[0].quantity, 3);
    assert_eq!(versions[0].position, Some(1));
}

#[test]
fn adapter_card_quantity_is_carried_through_when_present() {
    let mut raw = agot1st_card("13025", "Card 13025", "core-set", "Character", "Lannister");
    raw.card_quantity = Some(3);
    let (_, versions) = agot1st::build_cards_and_versions(&[raw]);
    assert_eq!(versions[0].quantity, 3);

    let mut raw = whi_card("04098", "Tactic", "Neutral");
    raw.card_quantity = Some(3);
    let (_, versions) = whinvasion::build_cards_and_versions(&[raw]);
    assert_eq!(versions[0].quantity, 3);
}

#[test]
fn adapter_card_number_is_carried_through_to_version_position() {
    let mut raw = agot1st_card("14115", "Card 14115", "core-set", "Attachment", "Martell");
    raw.card_number = Some(115);
    let (_, versions) = agot1st::build_cards_and_versions(&[raw]);
    assert_eq!(versions[0].position, Some(115));

    let mut raw = whi_card("08118", "Tactic", "Neutral");
    raw.card_number = Some(118);
    let (_, versions) = whinvasion::build_cards_and_versions(&[raw]);
    assert_eq!(versions[0].position, Some(118));
}

#[test]
fn a_missing_agot1st_quantity_is_one_copy() {
    let mut raw = agot1st_card("13025", "Card 13025", "core-set", "Character", "Lannister");
    raw.card_quantity = None;
    let (_, versions) = agot1st::build_cards_and_versions(&[raw]);
    assert_eq!(versions[0].quantity, 1);
}

#[test]
fn a_reprint_is_one_card_with_a_version_in_each_pack() {
    let (cards, versions) = coclcg::build_cards_and_versions(&[coc_card(
        "torch-the-joint",
        "card",
        vec![coc_version("core-set", 18), coc_version("spawn-of-madness", 2)],
    )]);
    assert_eq!(cards.len(), 1);
    assert_eq!(versions.len(), 2);
    for version in &versions {
        assert_eq!(version.card_id, "torch-the-joint");
    }
    assert_eq!(versions[0].position, Some(18));
    assert_eq!(versions[1].position, Some(2));
}

#[test]
fn a_story_card_keeps_its_own_back_group() {
    let (cards, _) = coclcg::build_cards_and_versions(&[coc_card("x", "story-core-set", vec![coc_version("core-set", 1)])]);
    assert_eq!(cards[0].back_group.as_deref(), Some("story-core-set"));
}

#[test]
fn maps_id_and_pack_code_onto_card_and_version() {
    let (cards, versions) = cohccg::build_cards_and_versions(&[coh_card("arena_011", "arena", 11, "rare")]);
    assert_eq!(cards.len(), 1);
    assert_eq!(versions.len(), 1);
    assert_eq!(cards[0].id, "arena_011");
    assert_eq!(cards[0].title, "Card arena_011");
    assert_eq!(cards[0].back_group.as_deref(), Some("card"));
    assert_eq!(cards[0].rarity.as_deref(), Some("rare"));
    assert_eq!(versions[0].card_id, "arena_011");
    assert_eq!(versions[0].pack_id, "arena");
}

#[test]
fn every_card_version_is_a_single_copy() {
    let (_, versions) = cohccg::build_cards_and_versions(&[
        coh_card("arena_001", "arena", 1, "uncommon"),
        coh_card("so_180", "secret_origins", 180, "rare"),
    ]);
    assert!(versions.iter().all(|v| v.quantity == 1));
}

#[test]
fn collector_number_becomes_version_position() {
    let (_, versions) = cohccg::build_cards_and_versions(&[coh_card("so_144", "secret_origins", 144, "rare")]);
    assert_eq!(versions[0].position, Some(144));
}

#[test]
fn card_names_are_trimmed_before_they_are_normalized() {
    let mut card = whc_card("broadside", "Army");
    card.name = "Sa'cea XV88 Broadside ".to_string();
    let (cards, _) = whconquest::build_cards_and_versions(&[card]);
    assert_eq!(cards[0].title, "Sa'cea XV88 Broadside");
    assert_eq!(cards[0].title_normalized, normalize_title("Sa'cea XV88 Broadside"));
}

#[test]
fn every_card_type_shares_the_one_card_back() {
    let (cards, _) = whconquest::build_cards_and_versions(&[
        whc_card("plannum", "Planet"),
        whc_card("nahumekh", "Warlord"),
        whc_card("acid-maw", "Army"),
    ]);
    for card in &cards {
        assert_eq!(card.back_group.as_deref(), Some("card"), "card {}", card.id);
    }
}

#[test]
fn maps_unique_id_pack_code_and_race_onto_card_and_version() {
    let (cards, versions) = whinvasion::build_cards_and_versions(&[whi_card("10013", "Unit", "Orc")]);
    assert_eq!(cards.len(), 1);
    assert_eq!(versions.len(), 1);
    assert_eq!(cards[0].id, "10013");
    assert_eq!(cards[0].title, "Card 10013");
    assert_eq!(cards[0].side.as_deref(), Some("Orc"));
    assert_eq!(versions[0].card_id, "10013");
    assert_eq!(versions[0].pack_id, "core-set");
}

#[test]
fn missing_card_quantity_defaults_to_one() {
    let mut raw = whi_card("01017", "Quest", "Dwarf");
    raw.card_quantity = None;
    let (_, versions) = whinvasion::build_cards_and_versions(&[raw]);
    assert_eq!(versions[0].quantity, 1);
}

#[test]
fn every_card_gets_the_same_generic_back_type_regardless_of_type() {
    let raw = vec![
        whi_card("a", "Unit", "Orc"),
        whi_card("b", "Quest", "Dwarf"),
        whi_card("c", "Fulcrum", "Empire"),
        whi_card("d", "Legend", "Chaos"),
    ];
    let (cards, _) = whinvasion::build_cards_and_versions(&raw);
    for c in &cards {
        assert_eq!(c.back_group.as_deref(), Some("warhammer_invasion_card_back"));
    }
}

#[test]
fn no_card_ever_gets_linked_card_metadata() {
    let (cards, _) = whinvasion::build_cards_and_versions(&[whi_card("10013", "Unit", "Orc")]);
    assert_eq!(cards[0].linked_card_code, None);
    assert_eq!(cards[0].linked_card_name, None);
    assert_eq!(cards[0].linked_card_back_group, None);
}

use proxynexus::games::whinvasion::{WhiAdapter, WhiPack};

#[test]
fn a_bundled_catalog_carries_its_packs_and_cards() {
    let packs = vec![WhiPack {
        code: "core-set".into(),
        name: "Core Set".into(),
        position: 1,
        available: Some("2009-10-01".into()),
    }];
    let catalog = WhiAdapter::new().build_catalog(&packs, &[whi_card("10013", "Unit", "Orc")]);
    assert_eq!(catalog.game_id, "whinvasion");
    assert_eq!(catalog.display_name, "Warhammer Invasion");
    assert_eq!(catalog.packs.len(), 1);
    assert_eq!(catalog.packs[0].id, "core-set");
    assert_eq!(catalog.packs[0].date_release.as_deref(), Some("2009-10-01"));
    assert_eq!(catalog.cards.len(), 1);
    assert_eq!(catalog.card_versions[0].pack_id, "core-set");
}

#[test]
fn accented_titles_normalize_to_the_ids_the_renamer_writes() {
    for (title, id) in [
        ("Déjà Vu", "deja_vu"),
        ("Dracō", "draco"),
        ("Chaos Theory: Wünderkind", "chaos_theory__wunderkind"),
        ("Doppelgänger", "doppelganger"),
        ("Shi.Kyū", "shi_kyu"),
        ("Tori Hanzō", "tori_hanzo"),
        ("Exposé", "expose"),
    ] {
        assert_eq!(normalize_title(title), id, "title: {}", title);
    }
}

#[test]
fn a_reteki_card_reprinted_in_two_packs_is_one_card() {
    let card = |code: &str, pack: &str| RebootCard {
        code: code.into(),
        title: "Déjà Vu".into(),
        pack_code: pack.into(),
        side_code: "runner".into(),
        quantity: 2,
        position: None,
    };
    let (cards, versions) = netrunner_reboot::build_cards_and_versions(&[card("01002", "core"), card("20002", "sc19")]);
    assert_eq!(cards.len(), 1);
    assert_eq!(cards[0].id, "deja_vu");
    assert_eq!(cards[0].back_group.as_deref(), Some("runner"));
    assert_eq!(versions.len(), 2);
    assert_eq!(versions[1].pack_id, "sc19");
}
