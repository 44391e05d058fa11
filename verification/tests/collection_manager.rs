use proxynexus::collection_manager::{
    collection_count_sql, collection_file_path, collection_id_sql, collection_listing, insert_collection_sql,
    insert_printing_sql, remove_collection_sql, version_of, versions_query_sql, VersionRow,
};

#[test]
fn a_new_collection_is_recorded_with_its_manifest() {
    assert_eq!(
        insert_collection_sql(3, "O'Neil", "netrunner", "1.0.0", "en", "2026-01-01T00:00:00+00:00"),
        "INSERT INTO collections (id, name, game_id, version, language, added_date) VALUES (3, 'O''Neil', 'netrunner', '1.0.0', 'en', '2026-01-01T00:00:00+00:00')"
    );
    assert_eq!(
        versions_query_sql("netrunner"),
        "SELECT v.id, v.card_id, v.pack_id FROM card_versions v JOIN packs p ON v.pack_id = p.id WHERE p.game_id = 'netrunner'"
    );
}

fn row(id: &str, card: &str, pack: &str) -> VersionRow {
    VersionRow { id: id.into(), card_id: card.into(), pack_id: pack.into() }
}

#[test]
fn an_image_takes_the_version_of_its_card_and_pack_or_names_its_variant() {
    let rows = vec![row("v1", "hedge_fund", "core"), row("v2", "hedge_fund", "sg"), row("v3", "hedge_fund", "core")];
    assert_eq!(version_of(&rows, "hedge_fund", "core").as_deref(), Some("v3"));
    assert_eq!(version_of(&rows, "hedge_fund", "alt"), None);
    assert_eq!(
        insert_printing_sql(10, 3, "hedge_fund", &Some("v2".into()), "sg", "mine/hedge_fund@sg.jpg", "front"),
        "INSERT INTO printings (id, collection_id, card_id, version_id, variant, file_path, part) VALUES (10, 3, 'hedge_fund', 'v2', NULL, 'mine/hedge_fund@sg.jpg', 'front')"
    );
    assert_eq!(
        insert_printing_sql(11, 3, "hedge_fund", &None, "alt", "mine/hedge_fund@alt~back.jpg", "back"),
        "INSERT INTO printings (id, collection_id, card_id, version_id, variant, file_path, part) VALUES (11, 3, 'hedge_fund', NULL, 'alt', 'mine/hedge_fund@alt~back.jpg', 'back')"
    );
    assert_eq!(collection_file_path("mine", "a.jpg"), "mine/a.jpg");
}

#[test]
fn a_collection_is_found_counted_and_removed_by_name_and_id() {
    assert_eq!(collection_count_sql("mine"), "SELECT COUNT(*) AS count FROM collections WHERE name = 'mine'");
    assert_eq!(collection_id_sql("mine"), "SELECT id FROM collections WHERE name = 'mine'");
    let (printings, collection) = remove_collection_sql(4);
    assert_eq!(printings, "DELETE FROM printings WHERE collection_id = 4");
    assert_eq!(collection, "DELETE FROM collections WHERE id = 4");
    assert_eq!(
        collection_listing("mine".into(), None, Some("en".into())),
        ("mine".to_string(), String::new(), "en".to_string())
    );
}

use proxynexus::collection::{collection_report, image_entry_name};
use std::path::PathBuf;

#[test]
fn a_collection_needs_at_least_one_image() {
    assert!(collection_report(Vec::new()).is_err());
    let report = collection_report(vec![PathBuf::from("a.jpg"), PathBuf::from("b.png")]).unwrap();
    assert_eq!(report.printings_added, 2);
    assert_eq!(image_entry_name("a.jpg"), "images/a.jpg");
}
