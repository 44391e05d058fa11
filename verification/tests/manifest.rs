use proxynexus::manifest::{build_manifest, csv_escape, manifest_to_csv};
use proxynexus::models::{CardSide, Printing};

fn mock_printing_with_linked(card_id: &str, back_group: &str, linked: Option<(&str, &str, &str)>) -> Printing {
    Printing {
        card_id: card_id.to_string(),
        card_title: "Test, \"Card\"".to_string(),
        is_official: true,
        variant: None,
        front: CardSide { image_key: Some(format!("{}.jpg", card_id)), bleed_image_key: None },
        backs: Vec::new(),
        collection: "core".to_string(),
        back_group: Some(back_group.to_string()),
        pack_id: Some("core-set".to_string()),
        date_release: Some("2016-01-01".to_string()),
        position: None,
        linked_card_code: linked.map(|(code, _, _)| code.to_string()),
        linked_card_name: linked.map(|(_, name, _)| name.to_string()),
        linked_card_back_group: linked.map(|(_, _, bg)| bg.to_string()),
    }
}

fn mock_printing(card_id: &str, back_group: &str) -> Printing {
    mock_printing_with_linked(card_id, back_group, None)
}

#[test]
fn build_manifest_carries_back_group_through() {
    let printings = vec![mock_printing("card-1", "player"), mock_printing("card-2", "encounter")];
    let entries = build_manifest(&printings);
    assert_eq!(entries.len(), 2);
    assert_eq!(entries[0].back_group, Some("player".to_string()));
    assert_eq!(entries[1].back_group, Some("encounter".to_string()));
}

#[test]
fn manifest_to_csv_escapes_commas_and_quotes() {
    let entries = build_manifest(&[mock_printing("card-1", "player")]);
    let csv = manifest_to_csv(&entries);
    let lines: Vec<&str> = csv.lines().collect();
    assert_eq!(lines.len(), 2);
    assert!(lines[1].starts_with("card-1,\"Test, \"\"Card\"\"\","));
}

#[test]
fn build_manifest_exposes_linked_card_without_changing_back_group() {
    let printings = vec![mock_printing_with_linked("71034", "player", Some(("71034b", "Carl Sanford", "encounter")))];
    let entries = build_manifest(&printings);
    assert_eq!(entries[0].back_group, Some("player".to_string()));
    assert_eq!(entries[0].linked_card_code, Some("71034b".to_string()));
    assert_eq!(entries[0].linked_card_name, Some("Carl Sanford".to_string()));
    assert_eq!(entries[0].linked_card_back_type, Some("encounter".to_string()));
}

#[test]
fn manifest_to_csv_includes_linked_card_columns() {
    let entries = build_manifest(&[mock_printing_with_linked("71034", "player", Some(("71034b", "Carl Sanford", "encounter")))]);
    let csv = manifest_to_csv(&entries);
    let lines: Vec<&str> = csv.lines().collect();
    assert!(lines[0].contains("linked_card_code,linked_card_name,linked_card_back_type"));
    assert!(lines[1].contains("71034b,Carl Sanford,encounter"));
}

#[test]
fn a_field_needs_quotes_only_for_a_comma_a_quote_or_a_newline() {
    assert_eq!(csv_escape("plain"), "plain");
    assert_eq!(csv_escape("a,b"), "\"a,b\"");
    assert_eq!(csv_escape("say \"hi\""), "\"say \"\"hi\"\"\"");
    assert_eq!(csv_escape("two\nlines"), "\"two\nlines\"");
    assert_eq!(csv_escape(""), "");
}

#[test]
fn an_empty_manifest_is_its_header() {
    let csv = manifest_to_csv(&[]);
    assert_eq!(csv.lines().count(), 1);
    assert!(csv.ends_with('\n'));
}
