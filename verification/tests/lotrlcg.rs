use proxynexus::card_store::normalize_title;
use proxynexus::games::lotrlcg::assembly::{build_catalog, pack_release_dates};
use proxynexus::games::lotrlcg::identity::{card_titles, normalized_rules_text, printing_card_ids, slug_suffix};
use proxynexus::games::lotrlcg::{HobCard, HobCardFace, RingsdbCard, RingsdbPack};
use proxynexus::keyed::StrMap;
use std::collections::HashSet;

struct Card(HobCard);

impl Card {
    fn new(title: &str, slug: &str, pack: &str) -> Self {
        Self(HobCard {
            title: title.to_string(),
            slug: slug.to_string(),
            card_set: pack.to_string(),
            number: 1,
            quantity: None,
            front: None,
            back: None,
            card_type: "Hero".to_string(),
            sphere: None,
        })
    }

    fn card_type(mut self, t: &str) -> Self {
        self.0.card_type = t.to_string();
        self
    }

    fn sphere(mut self, s: &str) -> Self {
        self.0.sphere = Some(s.to_string());
        self
    }

    fn front_text(mut self, text: &str) -> Self {
        self.0.front = Some(face_with_text(text));
        self
    }

    fn back_text(mut self, text: &str) -> Self {
        self.0.back = Some(face_with_text(text));
        self
    }

    fn build(self) -> HobCard {
        self.0
    }
}

fn face_with_text(text: &str) -> HobCardFace {
    HobCardFace { image_path: None, stats: None, text: Some(vec![text.to_string()]), subtitle: None }
}

fn dates(pairs: &[(&str, &str)]) -> StrMap<String> {
    let mut map = StrMap::new();
    for (pack, date) in pairs {
        map.insert(normalize_title(pack), date.to_string());
    }
    map
}

fn id_of(ids: &StrMap<String>, slug: &str) -> String {
    ids.get(&normalize_title(slug))
        .unwrap_or_else(|| panic!("slug {} missing from printing_card_ids", slug))
        .clone()
}

#[test]
fn reprints_with_identical_identity_collapse_to_the_earliest_printing() {
    let cards = vec![
        Card::new("Aragorn", "Aragorn-Core", "Core Set").sphere("Leadership").front_text("Sentinel.").build(),
        Card::new("Aragorn", "Aragorn-RevCore", "Revised Core Set").sphere("Leadership").front_text("Sentinel.").build(),
    ];
    let ids = printing_card_ids(&cards, &dates(&[("Core Set", "2011-04-20"), ("Revised Core Set", "2022-01-01")]));
    assert_eq!(id_of(&ids, "Aragorn-Core"), normalize_title("Aragorn-Core"));
    assert_eq!(id_of(&ids, "Aragorn-RevCore"), normalize_title("Aragorn-Core"));
}

#[test]
fn different_card_type_or_sphere_keeps_a_shared_title_separate() {
    let types = vec![
        Card::new("Gríma", "Grima-Hero", "Pack").card_type("Hero").build(),
        Card::new("Gríma", "Grima-Objective-Ally", "Pack").card_type("Objective_Ally").build(),
    ];
    let type_ids = printing_card_ids(&types, &dates(&[]));
    assert_ne!(id_of(&type_ids, "Grima-Hero"), id_of(&type_ids, "Grima-Objective-Ally"));

    let spheres = vec![
        Card::new("Faramir", "Faramir-A", "Pack").sphere("Lore").build(),
        Card::new("Faramir", "Faramir-B", "Pack").sphere("Leadership").build(),
    ];
    let sphere_ids = printing_card_ids(&spheres, &dates(&[]));
    assert_ne!(id_of(&sphere_ids, "Faramir-A"), id_of(&sphere_ids, "Faramir-B"));
}

#[test]
fn different_front_or_back_text_keeps_a_shared_title_separate() {
    let cards = vec![
        Card::new("Armor Plating", "Armor-Plating", "Pack").front_text("Attach to a hero.").build(),
        Card::new("Armor Plating", "Armor-Plating-Upgraded", "Pack").front_text("Attach to a hero. Gains +1 defense.").build(),
    ];
    let ids = printing_card_ids(&cards, &dates(&[]));
    assert_ne!(id_of(&ids, "Armor-Plating"), id_of(&ids, "Armor-Plating-Upgraded"));

    let stages = vec![
        Card::new("Stage", "Stage-1", "Pack").back_text("2A setup.").build(),
        Card::new("Stage", "Stage-2", "Pack").back_text("2B setup.").build(),
    ];
    let stage_ids = printing_card_ids(&stages, &dates(&[]));
    assert_ne!(id_of(&stage_ids, "Stage-1"), id_of(&stage_ids, "Stage-2"));
}

#[test]
fn cosmetic_text_differences_do_not_split_identity() {
    let cards = vec![
        Card::new("Dúnedain Lookout", "Lookout-A", "Pack")
            .front_text("Response: after Dúnedain Lookout enters play,\ndraw a card.")
            .build(),
        Card::new("Dúnedain Lookout", "Lookout-B", "Pack")
            .front_text("RESPONSE: After Dunedain Lookout enters play, draw a card.  ")
            .build(),
        Card::new("Thing", "Thing-A", "Pack").front_text("It`s here.").build(),
        Card::new("Thing", "Thing-B", "Pack").front_text("It’s here.").build(),
    ];
    let ids = printing_card_ids(&cards, &dates(&[]));
    assert_eq!(id_of(&ids, "Lookout-A"), id_of(&ids, "Lookout-B"));
    assert_eq!(id_of(&ids, "Thing-A"), id_of(&ids, "Thing-B"));
}

#[test]
fn undated_packs_are_treated_as_printed_last() {
    let cards = vec![
        Card::new("Aragorn", "Zz-Undated-Printing", "Unknown Pack").build(),
        Card::new("Aragorn", "Aa-Dated-Printing", "Known Pack").build(),
    ];
    let ids = printing_card_ids(&cards, &dates(&[("Known Pack", "2015-01-01")]));
    assert_eq!(id_of(&ids, "Zz-Undated-Printing"), normalize_title("Aa-Dated-Printing"));
}

#[test]
fn grouping_is_order_independent() {
    let mut cards = vec![
        Card::new("Aragorn", "Aragorn-Core", "Core Set").build(),
        Card::new("Aragorn", "Aragorn-RevCore", "Revised Core Set").build(),
        Card::new("Gríma", "Grima-Hero", "Pack").card_type("Hero").build(),
    ];
    let pack_dates = dates(&[("Core Set", "2011-04-20"), ("Revised Core Set", "2022-01-01")]);
    let forward = printing_card_ids(&cards, &pack_dates);
    cards.reverse();
    let backward = printing_card_ids(&cards, &pack_dates);
    assert_eq!(forward.len(), backward.len());
    for slug in ["Aragorn-Core", "Aragorn-RevCore", "Grima-Hero"] {
        assert_eq!(id_of(&forward, slug), id_of(&backward, slug));
    }
}

#[test]
fn a_title_naming_one_card_stays_plain() {
    let cards = vec![Card::new("Valor", "Valor-RevCore", "Pack").build()];
    let ids = printing_card_ids(&cards, &dates(&[]));
    let titles = card_titles(&cards, &ids);
    assert_eq!(titles.get(&id_of(&ids, "Valor-RevCore")).unwrap(), "Valor");
}

#[test]
fn a_title_naming_several_cards_gets_an_earliest_slug_suffix() {
    let cards = vec![
        Card::new("Gríma", "Grima-Hero-VoI", "Pack").card_type("Hero").build(),
        Card::new("Gríma", "Grima-Objective-Ally-VoI", "Pack").card_type("Objective_Ally").build(),
    ];
    let ids = printing_card_ids(&cards, &dates(&[]));
    let titles = card_titles(&cards, &ids);
    assert_eq!(titles.get(&id_of(&ids, "Grima-Hero-VoI")).unwrap(), "Gríma (Hero VoI)");
    assert_eq!(titles.get(&id_of(&ids, "Grima-Objective-Ally-VoI")).unwrap(), "Gríma (Objective Ally VoI)");
}

#[test]
fn titles_are_unique_raw_and_normalized() {
    let cards = vec![
        Card::new("Aragorn", "Aragorn-Core", "Core Set").front_text("Sentinel.").build(),
        Card::new("Aragorn", "Aragorn-TLR", "The Lost Realm").front_text("Fierce.").build(),
        Card::new("Aragorn", "Aragorn-TWitW", "The Wilds").front_text("Renowned.").build(),
    ];
    let pack_dates = dates(&[("Core Set", "2011-04-20"), ("The Lost Realm", "2015-01-01"), ("The Wilds", "2016-01-01")]);
    let ids = printing_card_ids(&cards, &pack_dates);
    let titles = card_titles(&cards, &ids);
    assert_eq!(titles.len(), 3);
    let all: Vec<String> = ["Aragorn-Core", "Aragorn-TLR", "Aragorn-TWitW"]
        .iter()
        .map(|slug| titles.get(&id_of(&ids, slug)).unwrap().clone())
        .collect();
    let raw: HashSet<_> = all.iter().collect();
    assert_eq!(raw.len(), 3, "titles are not unique raw");
    let normalized: HashSet<_> = all.iter().map(|t| normalize_title(t)).collect();
    assert_eq!(normalized.len(), 3, "titles are not unique after normalize_title");
}

#[test]
fn rules_text_keeps_only_its_words() {
    let text = normalized_rules_text(&["Response: after Dúnedain Lookout".to_string(), "enters play!".to_string()]);
    assert_eq!(text, "response_after_dunedain_lookout_enters_play");
}

#[test]
fn a_slug_suffix_is_what_follows_the_title() {
    assert_eq!(slug_suffix("Aragorn-Core", "Aragorn"), Some("Core".to_string()));
    assert_eq!(slug_suffix("Aragorn", "Aragorn"), None);
    assert_eq!(slug_suffix("Boromir-Core", "Aragorn"), None);
}

#[test]
fn ffg_dates_win_over_ringsdb_and_leave_other_packs_alone() {
    let ringsdb = vec![
        RingsdbPack { name: "The Dark of Mirkwood".to_string(), available: "2011-04-22".to_string() },
        RingsdbPack { name: "ALeP - The Aldburg Plot".to_string(), available: "2021-03-04".to_string() },
    ];
    let ffg = vec![("The Dark of Mirkwood".to_string(), "2021-12-01".to_string())];
    let pack_dates = pack_release_dates(&ringsdb, &ffg);
    assert_eq!(pack_dates.get("the_dark_of_mirkwood").unwrap(), "2021-12-01");
    assert_eq!(pack_dates.get("the_aldburg_plot").unwrap(), "2021-03-04");
}

fn ringsdb_card(name: &str, pack_name: &str, position: Option<u32>, official: Option<bool>) -> RingsdbCard {
    RingsdbCard {
        code: "x".to_string(),
        name: name.to_string(),
        pack_code: "p".to_string(),
        pack_name: pack_name.to_string(),
        type_code: Some("hero".to_string()),
        position,
        quantity: None,
        is_official: official,
    }
}

#[test]
fn a_catalog_takes_each_pack_card_and_position_once() {
    let mut hob = Card::new("Aragorn", "Aragorn-Core", "Core Set").front_text("Sentinel.").build();
    hob.number = 1;
    let ringsdb_packs = vec![RingsdbPack { name: "Core Set".to_string(), available: "2011-04-20".to_string() }];
    let alep = vec![ringsdb_card("Elrond", "ALeP - Core Set", Some(2), Some(false))];
    let ringsdb = vec![
        ringsdb_card("Aragorn", "Core Set", Some(1), Some(true)),
        ringsdb_card("Gimli", "Core Set", Some(4), Some(true)),
    ];
    let catalog = build_catalog(&[hob], &ringsdb_packs, &[], &alep, &ringsdb);
    assert_eq!(catalog.game_id, "lotrlcg");
    assert_eq!(catalog.packs.len(), 1);
    assert_eq!(catalog.packs[0].id, "core_set");
    assert_eq!(catalog.packs[0].name, "ALeP - Core Set");
    assert_eq!(catalog.packs[0].date_release.as_deref(), Some("2011-04-20"));
    let ids: Vec<&str> = catalog.cards.iter().map(|c| c.id.as_str()).collect();
    assert_eq!(ids, vec!["aragorn_core", "elrond_core_set", "gimli_core_set"]);
    assert_eq!(catalog.cards[0].back_group.as_deref(), Some("player"));
    assert_eq!(catalog.card_versions.len(), 3);
    assert_eq!(catalog.card_versions[0].quantity, 3);
    assert_eq!(catalog.card_versions[0].api_id.as_deref(), Some("aragorn_core"));
}
