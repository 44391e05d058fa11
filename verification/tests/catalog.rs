use proxynexus::catalog::{card_count_sql, catalog_info, seed_statements, update_statements, Card, CardVersion, Catalog, Pack};

fn catalog() -> Catalog {
    Catalog {
        game_id: "netrunner".into(),
        display_name: "Netrunner".into(),
        packs: vec![Pack { id: "core".into(), name: "Core Set".into(), date_release: Some("2012-09-06".into()) }],
        cards: vec![Card {
            id: "sure_gamble".into(),
            title: "Sure Gamble".into(),
            title_normalized: "sure_gamble".into(),
            side: None,
            back_group: Some("runner".into()),
            rarity: None,
            linked_card_code: None,
            linked_card_name: None,
            linked_card_back_group: None,
        }],
        card_versions: vec![CardVersion {
            card_id: "sure_gamble".into(),
            pack_id: "core".into(),
            quantity: 3,
            position: None,
            api_id: None,
        }],
    }
}

#[test]
fn a_catalog_is_recorded_game_first_then_packs_cards_and_versions() {
    let statements = seed_statements(&catalog());
    assert_eq!(
        statements,
        vec![
            "INSERT INTO games (id, display_name) VALUES ('netrunner', 'Netrunner')".to_string(),
            "INSERT INTO packs (id, game_id, name, date_release) VALUES ('core', 'netrunner', 'Core Set', '2012-09-06')".to_string(),
            "INSERT INTO cards (id, game_id, title, title_normalized, side) VALUES ('sure_gamble', 'netrunner', 'Sure Gamble', 'sure_gamble', NULL)".to_string(),
            "INSERT INTO card_versions (id, card_id, pack_id, quantity, position) VALUES ('sure_gamble_core', 'sure_gamble', 'core', 3, NULL)".to_string(),
        ]
    );
}

#[test]
fn an_update_replaces_the_catalog_in_one_transaction() {
    let statements = update_statements(&[catalog()]);
    assert_eq!(statements.len(), 10);
    assert_eq!(statements[0], "BEGIN");
    assert_eq!(statements[4], "DELETE FROM games");
    assert_eq!(statements[9], "COMMIT");
}

#[test]
fn the_catalog_summary_counts_each_games_cards() {
    assert_eq!(card_count_sql(None), "SELECT COUNT(*) AS count FROM cards");
    assert_eq!(card_count_sql(Some("netrunner")), "SELECT COUNT(*) AS count FROM cards WHERE game_id = 'netrunner'");
    assert_eq!(
        catalog_info(&[("Netrunner".to_string(), 12)]),
        "Card Catalog Info:\n - Netrunner: 12 logical cards\n"
    );
}
