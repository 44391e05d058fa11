use proxynexus::db_storage::{build_in_clause, quote_sql_string};

fn strings(items: &[&str]) -> Vec<String> {
    items.iter().map(|s| s.to_string()).collect()
}

#[test]
fn test_quote_sql_string() {
    assert_eq!(quote_sql_string("hello"), "'hello'");
    assert_eq!(quote_sql_string("hello'world"), "'hello''world'");
    assert_eq!(quote_sql_string(""), "''");
    assert_eq!(quote_sql_string("'"), "''''");
}

#[test]
fn test_build_in_clause() {
    assert_eq!(build_in_clause(&strings(&["a", "b", "c"])), "'a', 'b', 'c'");
    assert_eq!(build_in_clause(&strings(&["O'Brian", "b"])), "'O''Brian', 'b'");
    assert_eq!(build_in_clause(&[]), "");
}

use proxynexus::db_storage::{
    export_sql_text, CardDbRow, CardVersionDbRow, CollectionDbRow, GameDbRow, PackDbRow, PrintingDbRow,
};

#[test]
fn the_export_writes_one_insert_per_table_with_nulls_and_quotes() {
    let games = vec![GameDbRow { id: "netrunner".into(), display_name: "Netrunner".into() }];
    let packs = vec![PackDbRow { id: "core".into(), game_id: "netrunner".into(), name: "Core Set".into(), date_release: None }];
    let cards = vec![CardDbRow {
        id: "sure_gamble".into(),
        game_id: "netrunner".into(),
        title: "Sure Gamble".into(),
        title_normalized: "sure_gamble".into(),
        side: Some("runner".into()),
    }];
    let versions = vec![CardVersionDbRow {
        id: "v1".into(),
        card_id: "sure_gamble".into(),
        pack_id: "core".into(),
        quantity: 3,
        position: Some(50),
    }];
    let collections = vec![CollectionDbRow {
        id: 1,
        name: "O'Brien".into(),
        game_id: "netrunner".into(),
        version: Some("1.0.0".into()),
        language: None,
        added_date: "2026-01-01".into(),
        last_updated: None,
    }];
    let printings = vec![PrintingDbRow {
        id: 7,
        collection_id: 1,
        card_id: "sure_gamble".into(),
        version_id: None,
        is_official: true,
        variant: None,
        file_path: "a.jpg".into(),
        part: "front".into(),
    }];
    let sql = export_sql_text(&games, &packs, &cards, &versions, &collections, &printings);
    let expected = "INSERT INTO games (id, display_name) VALUES ('netrunner', 'Netrunner');\n\
INSERT INTO packs (id, game_id, name, date_release) VALUES ('core', 'netrunner', 'Core Set', NULL);\n\
INSERT INTO cards (id, game_id, title, title_normalized, side) VALUES ('sure_gamble', 'netrunner', 'Sure Gamble', 'sure_gamble', 'runner');\n\
INSERT INTO card_versions (id, card_id, pack_id, quantity, position) VALUES ('v1', 'sure_gamble', 'core', 3, 50);\n\
INSERT INTO collections (id, name, game_id, version, language, added_date, last_updated) VALUES (1, 'O''Brien', 'netrunner', '1.0.0', NULL, '2026-01-01', NULL);\n\
INSERT INTO printings (id, collection_id, card_id, version_id, is_official, variant, file_path, part) VALUES (7, 1, 'sure_gamble', NULL, TRUE, NULL, 'a.jpg', 'front');\n";
    assert_eq!(sql, expected);
}

#[test]
fn an_export_splits_a_table_every_five_hundred_rows() {
    let games: Vec<GameDbRow> = (0..501).map(|i| GameDbRow { id: format!("g{i}"), display_name: "G".into() }).collect();
    let sql = export_sql_text(&games, &[], &[], &[], &[], &[]);
    assert_eq!(sql.matches("INSERT INTO games").count(), 2);
    assert!(sql.ends_with("VALUES ('g500', 'G');\n"));
    assert_eq!(export_sql_text(&[], &[], &[], &[], &[], &[]), "");
}

use proxynexus::db_storage::{last_id_sql, next_id};

#[test]
fn a_new_row_takes_the_id_after_the_highest() {
    assert_eq!(last_id_sql("printings"), "SELECT id FROM printings ORDER BY id DESC LIMIT 1");
    assert_eq!(next_id(Some(41)), 42);
    assert_eq!(next_id(None), 1);
}
