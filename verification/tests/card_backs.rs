use proxynexus::card_backs::{
    allowed_labels, backs_of, card_back, card_back_from_file, card_back_table, default_label, game_id_of_folder,
    CardBackTable,
};
use proxynexus::keyed::StrMap;
use proxynexus::models::{CardSide, Printing};
use std::collections::{BTreeSet, HashMap};

/// A game's folder name and the files of its `backs` folder, each with the
/// bytes it holds.
fn shipped() -> Vec<(&'static str, Vec<(&'static str, Vec<u8>)>)> {
    vec![
        (
            "marvel_champions",
            vec![
                ("encounter_alt.png", vec![1, 2, 3]),
                ("encounter_proxy.bleed.jpg", vec![4]),
                ("player_alt.png", vec![5, 6]),
                ("player_proxy.bleed.jpg", vec![7]),
            ],
        ),
        (
            "netrunner",
            vec![("corp_proxy.jpg", vec![8]), ("runner_proxy.jpg", vec![9, 10])],
        ),
    ]
}

fn table() -> CardBackTable {
    let folders: Vec<(String, Vec<String>)> = shipped()
        .into_iter()
        .map(|(folder, files)| (folder.to_string(), files.into_iter().map(|(f, _)| f.to_string()).collect()))
        .collect();
    card_back_table(&folders).unwrap()
}

fn printing_from(collection: &str) -> Printing {
    Printing {
        card_id: "a-card".into(),
        card_title: "A Card".into(),
        is_official: true,
        variant: None,
        front: CardSide::default(),
        backs: Vec::new(),
        collection: collection.into(),
        back_group: Some("a-group".into()),
        pack_id: None,
        date_release: None,
        position: None,
        linked_card_code: None,
        linked_card_name: None,
        linked_card_back_group: None,
    }
}

#[test]
fn an_asset_id_is_the_game_id_and_the_file_name() {
    let table = table();
    for (game_id, backs) in &table.games {
        for back in backs {
            assert_eq!(back.asset_id, format!("{}_{}", game_id, back.file));
            let bleed = if back.has_bleed { ".bleed" } else { "" };
            let extension = back.file.rsplit('.').next().unwrap();
            assert_eq!(back.file, format!("{}_{}{}.{}", back.back_group, back.label, bleed, extension));
        }
    }
}

#[test]
fn every_published_back_has_bytes_behind_it() {
    let mut bytes_by_asset: Vec<(String, Vec<u8>)> = Vec::new();
    for (folder, files) in shipped() {
        let game_id = game_id_of_folder(folder);
        for (file, bytes) in files {
            bytes_by_asset.push((format!("{}_{}", game_id, file), bytes));
        }
    }
    let table = table();
    for (_, backs) in &table.games {
        for back in backs {
            let found = bytes_by_asset.iter().find(|(asset_id, _)| *asset_id == back.asset_id);
            let (_, bytes) = found.unwrap_or_else(|| panic!("no bytes for {}", back.asset_id));
            assert!(!bytes.is_empty(), "{} is empty", back.asset_id);
        }
    }
}

#[test]
fn every_back_group_of_a_game_offers_the_same_labels() {
    let table = table();
    for (game_id, backs) in &table.games {
        let mut by_group: HashMap<&str, BTreeSet<&str>> = HashMap::new();
        for back in backs {
            by_group.entry(back.back_group.as_str()).or_default().insert(back.label.as_str());
        }
        let mut groups = by_group.iter();
        let Some((first_group, expected)) = groups.next() else {
            continue;
        };
        for (group, labels) in groups {
            assert_eq!(
                labels, expected,
                "{}: back group '{}' offers {:?}, but '{}' offers {:?}",
                game_id, group, labels, first_group, expected
            );
        }
    }
}

#[test]
fn no_label_takes_proxy_then_the_first_offered() {
    assert_eq!(default_label(&["alt", "proxy"]), Some("proxy"));
    assert_eq!(default_label(&["alt", "zed"]), Some("alt"));
    assert_eq!(default_label(&[]), None);
}

#[test]
fn every_shipped_back_is_found_by_its_own_group_and_label() {
    let table = table();
    for (game_id, backs) in &table.games {
        for back in backs {
            assert_eq!(
                card_back(&table, game_id, &back.back_group, &back.label),
                Some(back),
                "{} {} {}",
                game_id,
                back.back_group,
                back.label
            );
        }
    }
}

#[test]
fn an_unknown_game_group_or_label_has_no_back() {
    let table = table();
    assert!(backs_of(&table, "no-such-game").is_empty());
    assert_eq!(card_back(&table, "no-such-game", "corp", "proxy"), None);
    for (game_id, backs) in &table.games {
        assert_eq!(card_back(&table, game_id, "no-such-group", "proxy"), None, "{}", game_id);
        if let Some(back) = backs.first() {
            assert_eq!(card_back(&table, game_id, &back.back_group, "no-such-label"), None, "{}", game_id);
        }
    }
}

#[test]
fn a_folder_name_spells_its_game_id_with_hyphens_and_either_spelling_finds_it() {
    let table = table();
    assert_eq!(table.games[0].0, "marvel-champions");
    assert_eq!(backs_of(&table, "marvel_champions").len(), 4);
    assert_eq!(backs_of(&table, "marvel-champions").len(), 4);
}

#[test]
fn a_file_without_a_back_group_and_label_is_no_back() {
    assert!(card_back_from_file("netrunner", "corp.jpg").is_none());
    assert!(card_back_from_file("netrunner", "_proxy.jpg").is_none());
    assert!(card_back_from_file("netrunner", "corp_.jpg").is_none());
    let folders = vec![("netrunner".to_string(), vec!["corp_proxy.jpg".to_string(), "runner.jpg".to_string()])];
    assert!(card_back_table(&folders).is_none());
}

#[test]
fn a_bled_back_file_is_marked_as_bled() {
    let back = card_back_from_file("netrunner", "corp_proxy.bleed.jpg").unwrap();
    assert_eq!(back.back_group, "corp");
    assert_eq!(back.label, "proxy");
    assert!(back.has_bleed);
    assert_eq!(back.asset_id, "netrunner_corp_proxy.bleed.jpg");
}

fn restrictions(entries: &[(&str, &[&str])]) -> StrMap<Vec<String>> {
    let mut map = StrMap::new();
    for (collection, labels) in entries {
        map.insert(collection.to_string(), labels.iter().map(|l| l.to_string()).collect());
    }
    map
}

#[test]
fn a_label_carried_by_several_back_groups_is_listed_once() {
    let table = table();
    let labels = allowed_labels(&table, "marvel-champions", &restrictions(&[]), &[]);
    assert_eq!(labels, vec!["alt".to_string(), "proxy".to_string()]);
}

#[test]
fn a_request_touching_no_restricted_collection_gets_every_label() {
    let table = table();
    let labels = allowed_labels(
        &table,
        "marvel-champions",
        &restrictions(&[("nsg", &["alt"])]),
        &[printing_from("ffg")],
    );
    assert_eq!(labels, vec!["alt".to_string(), "proxy".to_string()]);
}

#[test]
fn one_collection_withholding_a_label_withholds_it_for_the_whole_request() {
    let table = table();
    let labels = allowed_labels(
        &table,
        "marvel-champions",
        &restrictions(&[("nsg", &["alt"])]),
        &[printing_from("ffg"), printing_from("nsg")],
    );
    assert_eq!(labels, vec!["proxy".to_string()]);
}

#[test]
fn collections_withholding_different_labels_withhold_both() {
    let table = table();
    let labels = allowed_labels(
        &table,
        "marvel-champions",
        &restrictions(&[("nsg", &["alt"]), ("ffg", &["proxy"])]),
        &[printing_from("ffg"), printing_from("nsg")],
    );
    assert!(labels.is_empty());
}

#[test]
fn withholding_every_label_leaves_none() {
    let table = table();
    let labels = allowed_labels(
        &table,
        "marvel-champions",
        &restrictions(&[("nsg", &["alt", "proxy"])]),
        &[printing_from("nsg")],
    );
    assert!(labels.is_empty());
}
