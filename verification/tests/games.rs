use proxynexus::games::ahlcg::parse_arkhamdb_decklist_url;
use proxynexus::games::l5r::{build_title, parse_emeralddb_url, parse_position};
use proxynexus::games::lotrlcg::{back_group_from_type_code, canonical_pack_name};
use proxynexus::games::netrunner_reboot::parse_reteki_url;

#[test]
fn build_title_without_extra_returns_name_only() {
    assert_eq!(build_title("A Bad Death", None), "A Bad Death");
}

#[test]
fn build_title_with_empty_extra_returns_name_only() {
    assert_eq!(build_title("A Bad Death", Some("")), "A Bad Death");
}

#[test]
fn build_title_with_extra_appends_parenthesized_suffix() {
    assert_eq!(build_title("A Fate Worse Than Death", Some("2")), "A Fate Worse Than Death (2)");
}

#[test]
fn parse_position_returns_some_for_numeric_string() {
    assert_eq!(parse_position(Some("168")), Some(168));
}

#[test]
fn parse_position_returns_none_for_none_input() {
    assert_eq!(parse_position(None), None);
}

#[test]
fn parse_position_returns_none_for_non_numeric_string() {
    assert_eq!(parse_position(Some("xyz")), None);
}

#[test]
fn parse_position_returns_none_for_empty_string() {
    assert_eq!(parse_position(Some("")), None);
}

#[test]
fn api_parses_simple_decklist_url() {
    let id = parse_emeralddb_url("https://www.emeralddb.org/decklists/75ffc2ba-93a2-4551-bab3-2bb12ce015d7").unwrap();
    assert_eq!(id, "75ffc2ba-93a2-4551-bab3-2bb12ce015d7");

    let id = parse_arkhamdb_decklist_url("https://arkhamdb.com/decklist/view/12345/some-deck-1.0").unwrap();
    assert_eq!(id, "12345");
}

#[test]
fn api_parses_decklist_url_with_trailing_slash() {
    let id = parse_emeralddb_url("https://www.emeralddb.org/decklists/abc123/").unwrap();
    assert_eq!(id, "abc123");

    let id = parse_arkhamdb_decklist_url("https://arkhamdb.com/decklist/view/12345/").unwrap();
    assert_eq!(id, "12345");
}

#[test]
fn api_rejects_non_decklist_url() {
    assert!(parse_emeralddb_url("https://www.emeralddb.org/cards/foo").is_err());
    assert!(parse_arkhamdb_decklist_url("https://arkhamdb.com/card/01001").is_err());
}

#[test]
fn player_type_codes_map_to_player_back_group() {
    assert_eq!(back_group_from_type_code(Some("hero")), "player");
    assert_eq!(back_group_from_type_code(Some("treasure")), "player");
    assert_eq!(back_group_from_type_code(Some("player-objective")), "player");
}

#[test]
fn quest_type_codes_map_to_quest_back_group() {
    assert_eq!(back_group_from_type_code(Some("quest")), "quest");
    assert_eq!(back_group_from_type_code(Some("nightmare-setup")), "quest");
}

#[test]
fn unknown_or_absent_type_codes_map_to_encounter_back_group() {
    assert_eq!(back_group_from_type_code(Some("enemy")), "encounter");
    assert_eq!(back_group_from_type_code(None), "encounter");
}

#[test]
fn hobbit_saga_boxes_gain_the_hall_of_beorn_prefix() {
    assert_eq!(canonical_pack_name("Over Hill and Under Hill"), "The Hobbit: Over Hill and Under Hill");
    assert_eq!(canonical_pack_name("On the Doorstep"), "The Hobbit: On the Doorstep");
}

#[test]
fn alep_and_english_suffix_are_stripped() {
    assert_eq!(canonical_pack_name("ALeP - Redhorn Gate"), "Redhorn Gate");
    assert_eq!(canonical_pack_name("Redhorn Gate.English"), "Redhorn Gate");
}

#[test]
fn other_pack_names_pass_through_unchanged() {
    assert_eq!(canonical_pack_name("The Voice of Isengard"), "The Voice of Isengard");
}

#[test]
fn parses_a_decklist_url_with_a_title_slug() {
    assert_eq!(
        parse_reteki_url("https://nrdb.reteki.fun/en/decklist/422/get-carried-by-snowflake").unwrap(),
        ("422".to_string(), "decklist".to_string())
    );
}

#[test]
fn parses_a_deck_view_url() {
    assert_eq!(
        parse_reteki_url("https://nrdb.reteki.fun/en/deck/view/1234").unwrap(),
        ("1234".to_string(), "deck".to_string())
    );
}

#[test]
fn rejects_a_netrunnerdb_url() {
    assert!(parse_reteki_url("https://netrunnerdb.com/en/decklist/422/some-deck").is_err());
}

use proxynexus::card_source::DecklistProvider;
use proxynexus::games::get_decklist_adapter;

#[test]
fn each_game_reads_its_own_sites_decklists() {
    let arkham = get_decklist_adapter("ahlcg").unwrap();
    assert_eq!(
        arkham.decklist_api_url("https://arkhamdb.com/decklist/view/12345/some-deck-1.0").unwrap(),
        "https://arkhamdb.com/api/public/decklist/12345"
    );
    let rings = get_decklist_adapter("lotrlcg").unwrap();
    assert!(rings.decklist_api_url("https://arkhamdb.com/card/01001").is_err());
    assert!(get_decklist_adapter("coclcg").is_none());
}
