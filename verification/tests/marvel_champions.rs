use proxynexus::games::marvel_champions::{merge_pack_cards, pack_cards, McdbCard, RawCard};

fn raw(code: &str, name: &str, linked: Option<RawCard>) -> RawCard {
    RawCard {
        code: code.into(),
        name: name.into(),
        pack_code: "warm".into(),
        position: 1,
        type_code: "hero".into(),
        faction_code: "hero".into(),
        linked_to_code: linked.as_ref().map(|l| l.code.clone()),
        linked_card: linked.map(Box::new),
        quantity: Some(1),
        hidden: None,
        set_code: None,
        set_position: None,
        stage: None,
        is_unique: Some(true),
    }
}

#[test]
fn a_hero_and_its_hidden_alter_ego_become_two_linked_cards() {
    let alter_ego = raw("23001b", "James Rhodes", None);
    let cards = pack_cards(vec![raw("23001a", "War Machine", Some(alter_ego)), raw("23002", "Repulsor Blast", None)]);
    let codes: Vec<&str> = cards.iter().map(|c| c.code.as_str()).collect();
    assert_eq!(codes, vec!["23001a", "23001b", "23002"]);
    assert_eq!(cards[0].back_link.as_deref(), Some("23001b"));
    assert_eq!(cards[1].back_link.as_deref(), Some("23001a"));
    assert_eq!(cards[2].back_link, None);
}

fn card(code: &str, pack: &str) -> McdbCard {
    McdbCard {
        code: code.into(),
        name: "x".into(),
        pack_code: pack.into(),
        position: 1,
        type_code: "ally".into(),
        faction_code: "basic".into(),
        back_link: None,
        hidden: None,
        set_code: None,
        set_position: None,
        stage: None,
        is_unique: None,
        quantity: None,
    }
}

#[test]
fn a_card_several_packs_list_is_kept_where_it_first_appears() {
    let merged = merge_pack_cards(vec![vec![card("1", "core"), card("2", "core")], vec![card("2", "warm"), card("3", "warm")]]);
    let kept: Vec<(&str, &str)> = merged.iter().map(|c| (c.code.as_str(), c.pack_code.as_str())).collect();
    assert_eq!(kept, vec![("1", "core"), ("2", "core"), ("3", "warm")]);
}
