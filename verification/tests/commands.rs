use proxynexus::commands::{
    confirms_removal, determine_input_source, is_image_extension, manifest_file_name, parse_cardstock,
    resolve_back_label, InputSource,
};
use proxynexus::error::ProxyNexusError;
use proxynexus::mpc::Cardstock;

fn labels(items: &[&str]) -> Vec<String> {
    items.iter().map(|s| s.to_string()).collect()
}

fn message(e: ProxyNexusError) -> String {
    match e {
        ProxyNexusError::Internal(m) => m,
        other => panic!("unexpected error {:?}", other),
    }
}

#[test]
fn a_card_list_wins_over_a_set_and_a_set_over_a_url() {
    assert_eq!(
        determine_input_source(Some("1 Sure Gamble".into()), Some("core".into()), None),
        InputSource::Cardlist("1 Sure Gamble".into())
    );
    assert_eq!(determine_input_source(None, Some("core".into()), Some("u".into())), InputSource::SetName("core".into()));
    assert_eq!(determine_input_source(None, None, Some("u".into())), InputSource::DecklistUrl("u".into()));
}

#[test]
fn a_cardstock_is_named_in_any_case() {
    assert_eq!(parse_cardstock("s33").unwrap(), Cardstock::S33);
    assert_eq!(parse_cardstock("P10").unwrap(), Cardstock::P10);
    assert_eq!(
        message(parse_cardstock("X1").unwrap_err()),
        "Unsupported cardstock: 'X1'. Options are 'S27', 'S30', 'S33', 'M31', or 'P10'"
    );
}

#[test]
fn a_back_label_is_the_one_asked_for_or_the_default() {
    assert_eq!(resolve_back_label(None, &labels(&["alt", "proxy"])).unwrap(), Some("proxy".to_string()));
    assert_eq!(resolve_back_label(None, &labels(&["alt", "zed"])).unwrap(), Some("alt".to_string()));
    assert_eq!(resolve_back_label(Some("zed"), &labels(&["alt", "zed"])).unwrap(), Some("zed".to_string()));
    assert_eq!(resolve_back_label(None, &[]).unwrap(), None);
    assert_eq!(
        message(resolve_back_label(Some("alt"), &[]).unwrap_err()),
        "This game ships no card backs, so --back-label has nothing to choose from"
    );
    assert_eq!(
        message(resolve_back_label(Some("nope"), &labels(&["alt", "proxy"])).unwrap_err()),
        "Unsupported back label: 'nope'. Options are 'alt', 'proxy'"
    );
}

#[test]
fn only_a_y_confirms_a_removal() {
    assert!(confirms_removal(" Y\n"));
    assert!(confirms_removal("y"));
    assert!(!confirms_removal("yes"));
    assert!(!confirms_removal(""));
}

#[test]
fn a_manifest_is_named_after_the_output() {
    assert_eq!(manifest_file_name(Some("deck"), "csv"), "deck_manifest.csv");
    let (fallback, ext) = ("output", "json");
    assert_eq!(manifest_file_name(None, ext), format!("{fallback}_manifest.{ext}"));
}

#[test]
fn the_bleed_command_takes_png_and_jpeg_only() {
    assert!(is_image_extension("PNG"));
    assert!(is_image_extension("jpeg"));
    assert!(is_image_extension("Jpg"));
    assert!(!is_image_extension("gif"));
}
