use proxynexus::assemble::AvailablePrintingRow;
use proxynexus::card_store::{clean_card_name, normalize_title, CardStore};
use proxynexus::error::ProxyNexusError;
use proxynexus::keyed::StrMap;
use proxynexus::models::{CardRequest, CardSide, Printing};

fn row(side: &str, file_path: &str) -> AvailablePrintingRow {
    AvailablePrintingRow {
        title: "Jinteki Biotech".into(),
        id: "jinteki_biotech".into(),
        is_official: true,
        variant: None,
        file_path: file_path.into(),
        side: side.into(),
        name: "nr-ffg".into(),
        back_group: Some("corp".into()),
        pack_id: Some("the_valley".into()),
        has_bleed: false,
        date_release: None,
        position: None,
        linked_card_code: None,
        linked_card_name: None,
        linked_card_back_group: None,
    }
}

fn only_printing(rows: Vec<AvailablePrintingRow>) -> Printing {
    let assembled = CardStore::assemble_printings(&rows);
    assert_eq!(assembled.len(), 1);
    let printings = assembled.get("jinteki_biotech").unwrap();
    assert_eq!(printings.len(), 1);
    printings[0].duplicate()
}

#[test]
fn backs_are_ordered_by_index_not_by_the_order_rows_arrive() {
    let printing = only_printing(vec![row("back3", "c.jpg"), row("front", "f.jpg"), row("back", "a.jpg"), row("back2", "b.jpg")]);
    assert_eq!(printing.front.image_key.as_deref(), Some("f.jpg"));
    assert_eq!(
        printing.backs.iter().map(|back| back.image_key.as_deref().unwrap()).collect::<Vec<_>>(),
        vec!["a.jpg", "b.jpg", "c.jpg"]
    );
}

#[test]
fn a_printing_with_no_back_rows_has_no_backs() {
    let printing = only_printing(vec![row("front", "f.jpg")]);
    assert_eq!(printing.front.image_key.as_deref(), Some("f.jpg"));
    assert!(printing.backs.is_empty());
}

#[test]
fn the_bled_and_unbled_scans_of_one_side_land_on_the_same_side() {
    let mut bled = row("front", "f.bleed.jpg");
    bled.has_bleed = true;
    let printing = only_printing(vec![row("front", "f.jpg"), bled]);
    assert_eq!(printing.front.image_key.as_deref(), Some("f.jpg"));
    assert_eq!(printing.front.bleed_image_key.as_deref(), Some("f.bleed.jpg"));
}

fn mock_printing(code: &str, is_official: bool, variant: Option<&str>, coll: &str, pack: Option<&str>, date: Option<&str>) -> Printing {
    Printing {
        card_title: "Mocked Printing".into(),
        card_id: code.into(),
        is_official,
        variant: variant.map(|s| s.to_string()),
        front: CardSide { image_key: Some(format!("{}.jpg", code)), bleed_image_key: None },
        backs: Vec::new(),
        collection: coll.into(),
        back_group: Some("runner".into()),
        pack_id: pack.map(|p| p.to_string()),
        date_release: date.map(|s| s.to_string()),
        position: None,
        linked_card_code: None,
        linked_card_name: None,
        linked_card_back_group: None,
    }
}

fn request(title: &str, id: &str, printing: Option<&str>, collection: Option<&str>, position: Option<i64>) -> CardRequest {
    CardRequest {
        title: title.into(),
        id: id.into(),
        printing: printing.map(|s| s.to_string()),
        collection: collection.map(|s| s.to_string()),
        position,
    }
}

#[test]
fn test_select_printing_distinguishes_same_title_different_card_id() {
    let p1 = mock_printing("through_the_marsh_no_end_in_sight_nie", true, None, "lotrlcg-enhanced", Some("the_nin_in_eilph"), Some("2014-11-20"));
    let p2 = mock_printing("through_the_marsh_a_weary_passage_nie", true, None, "lotrlcg-enhanced", Some("the_nin_in_eilph"), Some("2014-11-20"));
    let p3 = mock_printing("through_the_marsh_a_forgotten_land_nie", true, None, "lotrlcg-enhanced", Some("the_nin_in_eilph"), Some("2014-11-20"));
    let available = vec![p1, p2, p3];
    for want in ["through_the_marsh_no_end_in_sight_nie", "through_the_marsh_a_weary_passage_nie", "through_the_marsh_a_forgotten_land_nie"] {
        let req = request("Through the Marsh", want, Some("the_nin_in_eilph"), None, None);
        assert_eq!(CardStore::select_printing(&req, &available).unwrap().card_id, want, "asked for {want}, got a different card");
    }
}

#[test]
fn test_explicit_pack_request_outranks_card_id_match() {
    let core = mock_printing("faramir_core", true, None, "lotrlcg-enhanced", Some("core_set"), Some("2011-01-01"));
    let starter = mock_printing("faramir_tples", true, None, "lotrlcg-enhanced", Some("two_player_limited_edition_starter"), Some("2013-01-01"));
    let available = vec![core, starter];
    let req = request("Faramir", "faramir_tples", Some("core_set"), None, None);
    assert_eq!(CardStore::select_printing(&req, &available).unwrap().card_id, "faramir_core", "the requested pack must beat the card id carried by the request");
}

#[test]
fn test_select_printing_prioritization() {
    let p1 = mock_printing("sure_gamble", true, None, "ffg-en", Some("core"), Some("2012-12-01"));
    let p2 = mock_printing("sure_gamble", false, Some("alt1"), "ffg-en", None, Some("2012-12-01"));
    let p3 = mock_printing("magnum_opus", true, None, "ffg-en", Some("revised_core"), Some("2017-01-01"));
    let p_collection = mock_printing("sure_gamble", true, None, "nsg-en", Some("system_gateway"), Some("2017-01-01"));
    let available = vec![p1, p2, p3, p_collection];

    let req = request("Sure Gamble", "sure_gamble", Some("alt1"), None, None);
    assert_eq!(CardStore::select_printing(&req, &available).unwrap().variant, Some("alt1".to_string()));

    let req = request("Sure Gamble", "sure_gamble", None, Some("nsg-en"), None);
    assert_eq!(CardStore::select_printing(&req, &available).unwrap().collection, "nsg-en");

    let req = request("Sure Gamble", "sure_gamble", Some("system_gateway"), None, None);
    assert_eq!(CardStore::select_printing(&req, &available).unwrap().pack_id, Some("system_gateway".to_string()));

    let req = request("Sure Gamble", "sure_gamble", Some("missing_variant"), None, None);
    let result = CardStore::select_printing(&req, &available).unwrap();
    assert_eq!(result.variant, None);
    assert_eq!(result.pack_id, Some("core".to_string()));

    let req = request("Sure Gamble", "sure_gamble", None, None, None);
    let result = CardStore::select_printing(&req, &available).unwrap();
    assert_eq!(result.variant, None);
    assert_eq!(result.pack_id, Some("core".to_string()));

    let req = request("Sure Gamble", "sure_gamble", Some("core"), Some("nsg-en"), None);
    let result = CardStore::select_printing(&req, &available).unwrap();
    assert_eq!(result.collection, "ffg-en");
    assert_eq!(result.pack_id, Some("core".to_string()));
}

#[test]
fn test_select_printing_prefers_requested_card_id_over_title_siblings() {
    let hero = mock_printing("vis_hero", true, None, "ffg-en", Some("vision"), Some("2020-01-01"));
    let alter_ego = mock_printing("vis_alter", true, None, "ffg-en", Some("vision"), Some("2020-01-01"));
    let bucket = vec![hero, alter_ego];
    let req_hero = request("Vision", "vis_hero", None, None, None);
    let req_alter_ego = request("Vision", "vis_alter", None, None, None);
    assert_eq!(CardStore::select_printing(&req_hero, &bucket).unwrap().card_id, "vis_hero");
    assert_eq!(CardStore::select_printing(&req_alter_ego, &bucket).unwrap().card_id, "vis_alter");
}

#[test]
fn test_select_printing_fallback_logic() {
    let p1 = mock_printing("1", true, None, "c1", Some("p1"), Some("2020-01-01"));
    let p2 = mock_printing("1", false, Some("alt1"), "c1", None, Some("2021-01-01"));
    let p3 = mock_printing("1", false, Some("promo"), "c2", None, Some("2022-01-01"));
    let available = vec![p1.duplicate(), p2, p3];
    let req1 = request("Test", "1", Some("missing_variant"), None, None);
    let result1 = CardStore::select_printing(&req1, &available).unwrap();
    assert!(result1.is_official);
    assert_eq!(result1.pack_id, Some("p1".to_string()));

    let p4 = mock_printing("1", true, None, "c2", Some("p4"), Some("2023-01-01"));
    let available2 = vec![p1, p4];
    let req3 = request("Test", "1", None, Some("c2"), None);
    let result3 = CardStore::select_printing(&req3, &available2).unwrap();
    assert_eq!(result3.collection, "c2");
}

#[test]
fn test_select_printing_by_position() {
    let gandalf_4 = Printing {
        card_title: "Gandalf".into(),
        card_id: "gandalf_core".into(),
        is_official: true,
        variant: None,
        front: CardSide { image_key: Some("gandalf_1_tples.jpg".into()), bleed_image_key: None },
        backs: Vec::new(),
        collection: "enhanced".into(),
        back_group: Some("player".into()),
        pack_id: Some("two_player_limited_edition_starter".into()),
        date_release: Some("2013-01-01".into()),
        position: Some(4),
        linked_card_code: None,
        linked_card_name: None,
        linked_card_back_group: None,
    };
    let gandalf_37 = Printing {
        front: CardSide { image_key: Some("gandalf_2_tples.jpg".into()), bleed_image_key: None },
        position: Some(37),
        ..gandalf_4.clone()
    };
    let available = vec![gandalf_4, gandalf_37];
    let req_37 = request("Gandalf", "gandalf_core", Some("two_player_limited_edition_starter"), None, Some(37));
    assert_eq!(CardStore::select_printing(&req_37, &available).unwrap().front.image_key.as_deref(), Some("gandalf_2_tples.jpg"));
    let req_none = request("Gandalf", "gandalf_core", Some("two_player_limited_edition_starter"), None, None);
    assert_eq!(CardStore::select_printing(&req_none, &available).unwrap().front.image_key.as_deref(), Some("gandalf_1_tples.jpg"));
}

#[test]
fn selecting_from_no_printings_names_the_title() {
    let req = request("Sure Gamble", "sure_gamble", None, None, None);
    match CardStore::select_printing(&req, &[]) {
        Err(ProxyNexusError::Internal(m)) => assert_eq!(m, "No matching printing found for 'Sure Gamble'"),
        _ => panic!("an empty list must be refused"),
    }
}

#[test]
fn an_undated_printing_loses_to_a_dated_one_and_dates_compare_as_text() {
    let undated = mock_printing("x", true, None, "c", Some("p0"), None);
    let late = mock_printing("x", true, None, "c", Some("p2"), Some("2020-05-01"));
    let early = mock_printing("x", true, None, "c", Some("p1"), Some("2019-12-31"));
    let available = vec![undated, late, early];
    let req = request("X", "x", None, None, None);
    assert_eq!(CardStore::select_printing(&req, &available).unwrap().pack_id.as_deref(), Some("p1"));
}

#[test]
fn test_clean_card_name() {
    assert_eq!(clean_card_name("Snare!"), "Snare!");
    assert_eq!(clean_card_name("Eli 1.0"), "Eli 1.0");
    assert_eq!(clean_card_name("The World is Yours*"), "The World is Yours*");
    assert_eq!(clean_card_name("Masterwork (v37)"), "Masterwork (v37)");
    assert_eq!(clean_card_name("\"Freedom Through Equality\""), "\"Freedom Through Equality\"");
    assert_eq!(clean_card_name("Title (with parens)"), "Title (with parens)");
    assert_eq!(clean_card_name("Hedge Fund ●"), "Hedge Fund");
    assert_eq!(clean_card_name("Sure Gamble -"), "Sure Gamble");
    assert_eq!(clean_card_name("Paperclip ●●●"), "Paperclip");
    assert_eq!(clean_card_name("Card Name ! ●"), "Card Name !");
    assert_eq!(clean_card_name("Card Name ●●●"), "Card Name");
}

#[test]
fn test_parse_quantity() {
    assert_eq!(CardStore::parse_quantity("3x Sure Gamble"), (3, "Sure Gamble"));
    assert_eq!(CardStore::parse_quantity("3 Sure Gamble"), (3, "Sure Gamble"));
    assert_eq!(CardStore::parse_quantity("Sure Gamble"), (1, "Sure Gamble"));
    assert_eq!(CardStore::parse_quantity("10x Hedge Fund"), (10, "Hedge Fund"));
}

#[test]
fn a_quantity_too_large_for_a_count_is_read_as_one() {
    assert_eq!(CardStore::parse_quantity("99999999999x Hedge Fund"), (1, "Hedge Fund"));
}

#[test]
fn test_parse_overrides() {
    let (name, p, pos, c) = CardStore::parse_overrides("Sure Gamble [alt]").unwrap();
    assert_eq!(name, "Sure Gamble");
    assert_eq!(p, Some("alt".into()));
    assert_eq!(pos, None);
    assert_eq!(c, None);

    let (_, p, pos, c) = CardStore::parse_overrides("Gandalf [tples:37]").unwrap();
    assert_eq!(p, Some("tples".into()));
    assert_eq!(pos, Some(37));
    assert_eq!(c, None);

    let (_, p, pos, c) = CardStore::parse_overrides("Sure Gamble [alt:ffg-en]").unwrap();
    assert_eq!(p, Some("alt".into()));
    assert_eq!(pos, None);
    assert_eq!(c, None);

    let (_, p, pos, c) = CardStore::parse_overrides("Gandalf [tples:37:enhanced]").unwrap();
    assert_eq!(p, Some("tples".into()));
    assert_eq!(pos, Some(37));
    assert_eq!(c, Some("enhanced".into()));

    let (_, p, pos, c) = CardStore::parse_overrides("Sure Gamble [core_set::enhanced]").unwrap();
    assert_eq!(p, Some("core_set".into()));
    assert_eq!(pos, None);
    assert_eq!(c, Some("enhanced".into()));

    let (_, p, _, _) = CardStore::parse_overrides("Card [ALT]").unwrap();
    assert_eq!(p, Some("alt".into()));
}

#[test]
fn test_parse_overrides_rejects_too_many_segments() {
    assert!(CardStore::parse_overrides("Card [a:b:c:d]").is_err());
}

#[test]
fn each_malformed_override_names_its_fault() {
    let message = |text: &str| match CardStore::parse_overrides(text) {
        Err(ProxyNexusError::Internal(m)) => m,
        _ => panic!("{text} must be refused"),
    };
    assert_eq!(message("Card [alt"), "Unclosed bracket in card override");
    assert_eq!(message("Card [  ]"), "Empty override brackets");
    assert_eq!(message("Card [a:b:c:d]"), "Card override 'a:b:c:d' has too many ':'-separated parts");
}

#[test]
fn test_normalize_title() {
    assert_eq!(normalize_title("Sure Gamble"), "sure_gamble");
    assert_eq!(normalize_title("Snare!"), "snare_");
    assert_eq!(normalize_title("Café"), "cafe");
    assert_eq!(normalize_title("piñata"), "pinata");
}

fn katana(file_path: &str, pack: &str, date: &str) -> AvailablePrintingRow {
    AvailablePrintingRow {
        title: "Fine Katana".into(),
        id: "fine-katana".into(),
        is_official: true,
        variant: None,
        file_path: file_path.into(),
        side: "front".into(),
        name: "collection".into(),
        back_group: Some("test".into()),
        pack_id: Some(pack.into()),
        date_release: Some(date.into()),
        has_bleed: false,
        position: None,
        linked_card_code: None,
        linked_card_name: None,
        linked_card_back_group: None,
    }
}

#[test]
fn test_assemble_printings_includes_all_packs() {
    let row1 = katana("l5r/collection/fine-katana@core.jpg", "core", "2017-10-05");
    let row2 = katana("l5r/collection/fine-katana@emerald-core-set.jpg", "emerald-core-set", "2021-10-21");
    let result = CardStore::assemble_printings(&[row1, row2]);
    let printings = result.get("fine_katana").unwrap();
    assert_eq!(printings.len(), 2);
    let pack_ids: Vec<_> = printings.iter().map(|p| p.pack_id.as_deref().unwrap()).collect();
    assert!(pack_ids.contains(&"core"));
    assert!(pack_ids.contains(&"emerald-core-set"));
}

#[test]
fn the_earliest_printing_of_a_title_comes_first() {
    let row1 = katana("b.jpg", "emerald-core-set", "2021-10-21");
    let row2 = katana("a.jpg", "core", "2017-10-05");
    let result = CardStore::assemble_printings(&[row1, row2]);
    let packs: Vec<_> = result.get("fine_katana").unwrap().iter().map(|p| p.pack_id.clone().unwrap()).collect();
    assert_eq!(packs, vec!["core", "emerald-core-set"]);
}

#[test]
fn test_assemble_printings_distinguishes_positions_in_one_pack() {
    let mk = |path: &str, pos: i64| AvailablePrintingRow {
        title: "Gandalf".into(),
        id: "gandalf_core".into(),
        is_official: true,
        variant: None,
        file_path: path.into(),
        side: "front".into(),
        name: "enhanced".into(),
        back_group: Some("player".into()),
        pack_id: Some("two_player_limited_edition_starter".into()),
        date_release: Some("2013-01-01".into()),
        has_bleed: false,
        position: Some(pos),
        linked_card_code: None,
        linked_card_name: None,
        linked_card_back_group: None,
    };
    let result = CardStore::assemble_printings(&[mk("lotrlcg/enhanced/gandalf_2_tples@tples.jpg", 37), mk("lotrlcg/enhanced/gandalf_1_tples@tples.jpg", 4)]);
    let printings = result.get("gandalf").unwrap();
    assert_eq!(printings.len(), 2);
    let positions: Vec<_> = printings.iter().map(|p| p.position).collect();
    assert_eq!(positions, vec![Some(4), Some(37)]);
}

fn mock_available() -> StrMap<Vec<Printing>> {
    let mut available = StrMap::new();
    let p1 = mock_printing("sure_gamble", true, None, "ffg-en", Some("core"), Some("2012-12-01"));
    let p2 = mock_printing("sure_gamble", false, Some("alt1"), "standard", Some("core"), Some("2012-12-01"));
    let p3 = mock_printing("sure_gamble", true, None, "alt-arts", Some("revised"), Some("2017-01-01"));
    let p_collection = mock_printing("sure_gamble", true, None, "alt-arts", Some("revised"), Some("2017-01-01"));
    available.insert("sure_gamble".to_string(), vec![p1, p2, p3, p_collection]);
    available
}

#[test]
fn test_resolve_printings() {
    let store = CardStore::new("netrunner".to_string());
    let mut available = mock_available();
    available.insert("snare_".to_string(), vec![mock_printing("snare_", true, None, "ffg-en", Some("core"), Some("2012-12-01"))]);
    let req1 = request("Sure Gamble", "sure_gamble", None, None, None);
    let req2 = request("Missing Card", "missing_card", None, None, None);
    let req3 = request("Snare!", "snare_", None, None, None);
    let result = store.resolve_printings(&[req1, req2, req3], &available).unwrap();
    assert_eq!(result.len(), 2);
    assert_eq!(result[0].card_id, "sure_gamble");
    assert_eq!(result[1].card_id, "snare_");
}

#[test]
fn no_printings_for_any_requested_title_is_an_error() {
    let store = CardStore::new("netrunner".to_string());
    let req = request("Sure Gamble", "sure_gamble", None, None, None);
    assert!(store.get_available_printings(&[req.duplicate()], &[]).is_err());
    assert_eq!(store.get_available_printings(&[], &[]).unwrap().len(), 0);
    let found = store.get_available_printings(&[req], &[row("front", "f.jpg")]).unwrap();
    assert!(found.contains_key("jinteki_biotech"));
}

#[test]
fn a_part_with_no_front_is_ignored() {
    let mut orphan = row("back", "x.jpg");
    orphan.pack_id = Some("other_pack".into());
    let assembled = CardStore::assemble_printings(&[row("front", "f.jpg"), orphan]);
    let printings = assembled.get("jinteki_biotech").unwrap();
    assert_eq!(printings.len(), 1);
    assert_eq!(printings[0].pack_id.as_deref(), Some("the_valley"));

    let only_orphans = CardStore::assemble_printings(&[row("back", "x.jpg")]);
    assert_eq!(only_orphans.len(), 0);
    let store = CardStore::new("netrunner".to_string());
    let request = CardRequest {
        title: "Jinteki Biotech".into(),
        id: "jinteki_biotech".into(),
        printing: None,
        collection: None,
        position: None,
    };
    assert!(store.get_available_printings(&[request], &[row("back", "x.jpg")]).is_err());
}

use proxynexus::cardlist::parse_cardlist;
use proxynexus::decklist::CardNameRow;
use proxynexus::models::{Decklist, DecklistEntry};
use proxynexus::packs::{PackRow, PackVersionRow};

fn name_row(id: &str, title: &str, pack_id: &str, norm: &str, position: Option<i64>) -> CardNameRow {
    CardNameRow {
        id: id.into(),
        title: title.into(),
        pack_id: pack_id.into(),
        title_normalized: norm.into(),
        position,
    }
}

#[test]
fn cardlist_position_override_resolves_through_the_full_pipeline() {
    let store = CardStore::new("lotrlcg".to_string());
    let entries = parse_cardlist("1x Gandalf [tples:37:enhanced] # my copy").unwrap();
    let rows = vec![name_row("gandalf_core", "Gandalf", "tples", "gandalf", Some(4))];
    let result = store.cardlist_requests(&entries, &rows);
    assert_eq!(result.requests.len(), 1);
    assert_eq!(result.requests[0].printing, Some("tples".to_string()));
    assert_eq!(result.requests[0].position, Some(37));
}

fn two_packs_one_image() -> (Vec<PackRow>, Vec<PackVersionRow>, Vec<String>) {
    let pack = |name: &str, id: &str, coll: Option<&str>, count: i64, date: Option<&str>| PackRow {
        pack_name: name.into(),
        pack_id: id.into(),
        coll_name: coll.map(|c| c.to_string()),
        coll_count: count,
        date_release: date.map(|d| d.to_string()),
    };
    let version = |pack: &str, id: &str, card: &str| PackVersionRow {
        pack_id: pack.into(),
        version_id: id.into(),
        card_id: card.into(),
    };
    (
        vec![
            pack("Core Set", "p_core", Some("enhanced"), 1, Some("2011-04-20")),
            pack("Revised Core Set", "p_rev", None, 0, Some("2022-01-01")),
        ],
        vec![version("p_core", "v_core", "lotrlcg_aragorn_core"), version("p_rev", "v_rev", "lotrlcg_aragorn_core")],
        vec!["lotrlcg_aragorn_core".to_string()],
    )
}

#[test]
fn a_pack_with_no_images_of_its_own_is_still_printable_from_another_pack() {
    let (rows, versions, printed) = two_packs_one_image();
    let store = CardStore::new("lotrlcg".to_string());
    let packs = store.get_available_packs(&rows, &versions, &printed);
    let revised = packs.iter().find(|p| p.id == "p_rev").unwrap();
    assert!(revised.collections.is_empty());
    assert_eq!((revised.total, revised.printable), (1, 1));
}

#[test]
fn a_pack_owning_its_image_reports_it_as_its_own() {
    let (rows, versions, printed) = two_packs_one_image();
    let store = CardStore::new("lotrlcg".to_string());
    let packs = store.get_available_packs(&rows, &versions, &printed);
    let core = packs.iter().find(|p| p.id == "p_core").unwrap();
    assert_eq!(core.collections, vec!["1 in enhanced".to_string()]);
    assert_eq!((core.total, core.printable), (1, 1));
}

#[test]
fn a_pack_whose_cards_have_no_image_anywhere_is_not_printable() {
    let (mut rows, mut versions, printed) = two_packs_one_image();
    rows.push(PackRow {
        pack_name: "The Dark of Mirkwood".into(),
        pack_id: "p_dom".into(),
        coll_name: None,
        coll_count: 0,
        date_release: None,
    });
    versions.push(PackVersionRow { pack_id: "p_dom".into(), version_id: "v_dom".into(), card_id: "lotrlcg_obsidian_arrows".into() });
    let store = CardStore::new("lotrlcg".to_string());
    let packs = store.get_available_packs(&rows, &versions, &printed);
    let dom = packs.iter().find(|p| p.id == "p_dom").unwrap();
    assert_eq!((dom.total, dom.printable), (1, 0));
}

#[test]
fn test_resolve_decklist_to_requests() {
    let store = CardStore::new("netrunner".to_string());
    let rows = vec![
        name_row("snare_", "Snare!", "none", "snare_", None),
        name_row("sure_gamble", "Sure Gamble", "core", "sure_gamble", None),
    ];
    let decklist = Decklist {
        cards: vec![
            DecklistEntry { card_id: "sure_gamble".to_string(), pack_id: Some("core".to_string()), quantity: 3, position: None },
            DecklistEntry { card_id: "snare_".to_string(), pack_id: None, quantity: 1, position: None },
        ],
    };
    let requests = store.resolve_decklist_to_requests(&decklist, &rows).requests;
    assert_eq!(requests.len(), 4);
    let sure_gamble_reqs: Vec<_> = requests.iter().filter(|r| r.id == "sure_gamble").collect();
    assert_eq!(sure_gamble_reqs.len(), 3);
    assert_eq!(sure_gamble_reqs[0].printing, Some("core".to_string()));
    assert_eq!(sure_gamble_reqs[0].title, "Sure Gamble");
    let snare_reqs: Vec<_> = requests.iter().filter(|r| r.id == "snare_").collect();
    assert_eq!(snare_reqs.len(), 1);
    assert_eq!(snare_reqs[0].printing, None);
    assert_eq!(snare_reqs[0].title, "Snare!");
}

/// The rows the decklist query gives for the Voice of Isengard pack, by id.
fn voi_rows() -> Vec<CardNameRow> {
    vec![
        name_row("aragorn_tples", "Aragorn", "voi", "aragorn", Some(1)),
        name_row("eyes_in_the_dark", "Eyes in the Dark", "voi", "eyes_in_the_dark", Some(81)),
        name_row("gildor_inglorion_tples", "Gildor Inglorion (TPLES)", "voi", "gildor_inglorion__tples_", Some(5)),
        name_row("grima_hero_voi", "Gríma", "voi", "grima", Some(2)),
        name_row("grima_objective_ally_voi", "Gríma", "voi", "grima", Some(16)),
        name_row("thorin_stonehelm", "Thorin Stonehelm", "voi", "thorin_stonehelm", Some(36)),
    ]
}

fn voi_entry(card_id: &str, position: Option<i64>) -> Decklist {
    Decklist {
        cards: vec![DecklistEntry { card_id: card_id.to_string(), pack_id: Some("voi".to_string()), quantity: 1, position }],
    }
}

#[test]
fn two_cards_sharing_a_title_resolve_by_position() {
    let store = CardStore::new("lotrlcg".to_string());
    let hero = store.resolve_decklist_to_requests(&voi_entry("grima", Some(2)), &voi_rows());
    assert_eq!(hero.requests[0].id, "grima_hero_voi");
    let ally = store.resolve_decklist_to_requests(&voi_entry("grima", Some(16)), &voi_rows());
    assert_eq!(ally.requests[0].id, "grima_objective_ally_voi");
}

#[test]
fn a_shared_title_with_no_position_still_resolves_deterministically() {
    let store = CardStore::new("lotrlcg".to_string());
    let result = store.resolve_decklist_to_requests(&voi_entry("grima", None), &voi_rows());
    assert_eq!(result.requests[0].id, "grima_hero_voi");
}

#[test]
fn a_lying_position_does_not_override_a_unique_name_match_in_the_pack() {
    let store = CardStore::new("lotrlcg".to_string());
    let result = store.resolve_decklist_to_requests(&voi_entry("thorin_stonehelm", Some(1)), &voi_rows());
    assert_eq!(result.requests[0].id, "thorin_stonehelm");
}

#[test]
fn a_lying_position_does_not_override_a_disambiguated_title_match() {
    let store = CardStore::new("lotrlcg".to_string());
    let result = store.resolve_decklist_to_requests(&voi_entry("gildor_inglorion", Some(81)), &voi_rows());
    assert_eq!(result.requests[0].id, "gildor_inglorion_tples");
}
