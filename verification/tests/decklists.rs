use proxynexus::collection::is_gpu_available;
use proxynexus::games::agot::{thronesdb_decklist, AgotCard, AgotDecklist};
use proxynexus::games::get_game_id_by_subdomain;
use proxynexus::games::l5r::{emeralddb_decklist, EmeraldDbDecklist};
use proxynexus::games::lotrlcg::{ringsdb_decklist, RingsdbCard, RingsdbDecklist};
use proxynexus::games::marvel_champions::parse_marvelcdb_decklist_url;
use proxynexus::games::netrunner::{nrdb_decklist, NrdbPrinting, NrdbPrintingAttributes};
use proxynexus::games::netrunner_reboot::{reteki_decklist, RebootCard, RebootDeck};
use proxynexus::games::urls::slots_decklist;

#[test]
fn a_netrunnerdb_deck_names_the_card_of_each_printing() {
    let printings = vec![NrdbPrinting {
        id: "01050".into(),
        attributes: NrdbPrintingAttributes {
            card_id: "sure_gamble".into(),
            card_set_id: "core".into(),
            quantity: 3,
            position: Some(50),
        },
    }];
    let deck = nrdb_decklist(&[("01050".to_string(), 3)], &printings);
    assert_eq!(deck.cards.len(), 1);
    assert_eq!(deck.cards[0].card_id, "sure_gamble");
    assert_eq!(deck.cards[0].quantity, 3);
}

#[test]
fn a_reteki_deck_names_each_card_by_its_normalized_title_and_pack() {
    let cards = vec![RebootCard {
        code: "01050".into(),
        title: "Sure Gamble".into(),
        pack_code: "core".into(),
        side_code: "runner".into(),
        quantity: 3,
        position: Some(50),
    }];
    let deck = reteki_decklist(&RebootDeck { cards: vec![("01050".into(), 2), ("99999".into(), 1)] }, &cards);
    assert_eq!(deck.cards.len(), 1);
    assert_eq!(deck.cards[0].card_id, "sure_gamble");
    assert_eq!(deck.cards[0].pack_id.as_deref(), Some("core"));
    assert_eq!(deck.cards[0].quantity, 2);
}

#[test]
fn a_ringsdb_deck_names_each_card_in_its_hall_of_beorn_pack() {
    let cards = vec![RingsdbCard {
        code: "01001".into(),
        name: "Aragorn".into(),
        pack_code: "Core".into(),
        pack_name: "ALeP - Core Set.English".into(),
        type_code: Some("hero".into()),
        position: Some(1),
        quantity: Some(1),
        is_official: Some(true),
    }];
    let deck = ringsdb_decklist(&RingsdbDecklist { slots: vec![("01001".into(), 1)], sideslots: Vec::new() }, &cards);
    assert_eq!(deck.cards.len(), 1);
    assert_eq!(deck.cards[0].card_id, "aragorn");
    assert_eq!(deck.cards[0].pack_id.as_deref(), Some("core_set"));
}

#[test]
fn a_thronesdb_deck_names_each_card_by_its_label() {
    let cards = vec![AgotCard {
        code: "01001".into(),
        name: "A Clash of Kings".into(),
        label: "A Clash of Kings (Core)".into(),
        pack_code: "Core".into(),
        type_code: "plot".into(),
        quantity: 1,
        position: Some(1),
    }];
    let deck = thronesdb_decklist(&AgotDecklist { slots: vec![("01001".into(), 1)] }, &cards);
    assert_eq!(deck.cards[0].card_id, "a_clash_of_kings__core_");
    assert_eq!(deck.cards[0].pack_id.as_deref(), Some("Core"));
}

#[test]
fn an_emeralddb_deck_keeps_its_card_ids() {
    let deck = emeralddb_decklist(&EmeraldDbDecklist { cards: vec![("a-bad-death".into(), 3)] });
    assert_eq!(deck.cards[0].card_id, "a-bad-death");
    assert_eq!(deck.cards[0].pack_id, None);
    assert_eq!(deck.cards[0].quantity, 3);
}

#[test]
fn a_slot_whose_quantity_is_no_count_is_left_out() {
    let deck = slots_decklist(&[("01001".into(), 2), ("01002".into(), -1)]);
    assert_eq!(deck.cards.len(), 1);
    assert_eq!(deck.cards[0].card_id, "01001");
    assert_eq!(deck.cards[0].quantity, 2);
}

#[test]
fn a_subdomain_names_its_game() {
    assert_eq!(get_game_id_by_subdomain("marvel"), Some("marvel_champions"));
    assert_eq!(get_game_id_by_subdomain("nowhere"), None);
}

#[test]
fn a_marvelcdb_url_holds_its_decklist_id() {
    assert_eq!(
        parse_marvelcdb_decklist_url("https://marvelcdb.com/decklist/view/12345/some-deck-name-1.0").unwrap(),
        "12345"
    );
    assert!(parse_marvelcdb_decklist_url("https://marvelcdb.com/card/01001").is_err());
}

#[test]
fn this_build_has_no_gpu_upscaling() {
    assert!(!is_gpu_available());
}
