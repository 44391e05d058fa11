use proxynexus::queries::{card_titles_sql, decklist_cards_sql, distinct_normalized, printings_sql, set_cards_sql};

#[test]
fn queries_quote_the_game_and_list_each_title_once() {
    let titles = distinct_normalized(&["Sure Gamble".to_string(), "sure gamble".to_string(), "Diesel".to_string()]);
    assert_eq!(titles, vec!["sure_gamble".to_string(), "diesel".to_string()]);
    let q = printings_sql(&titles, "netrunner");
    assert!(q.contains("WHERE c.title_normalized IN ('sure_gamble', 'diesel')"));
    assert!(q.ends_with("AND c.game_id = 'netrunner'"));
    assert!(card_titles_sql("netrunner").contains("WHERE c.game_id = 'netrunner'"));
}

#[test]
fn a_set_is_looked_up_by_its_lower_case_name() {
    assert!(set_cards_sql("Core Set", "netrunner").contains("WHERE LOWER(p.name) = 'core set'"));
}

#[test]
fn a_decklist_query_adds_its_packs_only_when_it_names_some() {
    let ids = vec!["01001".to_string()];
    let without = decklist_cards_sql(&ids, &[], "netrunner");
    assert!(without.contains("WHERE (c.api_id IN ('01001') OR c.title_normalized IN ('01001'))"));
    let with = decklist_cards_sql(&ids, &["core".to_string()], "netrunner");
    assert!(with.contains("OR c.title_normalized IN ('01001') OR p.api_id IN ('core'))"));
}
