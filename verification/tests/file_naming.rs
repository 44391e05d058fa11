use proxynexus::collection_manager::collection_image_parts;
use proxynexus::file_naming::{back_index, back_label, file_name_of, parse_filename, parse_stem};

#[test]
fn back_labels_carry_a_one_based_index() {
    assert_eq!(back_index("back"), Some(1));
    assert_eq!(back_index("back2"), Some(2));
    assert_eq!(back_index("back10"), Some(10));
}

#[test]
fn labels_that_name_no_back_have_no_index() {
    for label in ["front", "front2", "back0", "backside", "face2", "insert"] {
        assert_eq!(back_index(label), None, "label: {}", label);
    }
}

#[test]
fn the_first_back_is_spelled_without_its_number() {
    assert_eq!(back_label(1), "back");
    assert_eq!(back_label(2), "back2");
}

#[test]
fn a_back_label_reads_back_as_its_index() {
    for index in [1u32, 2, 3, 9, 10, 42, 4_000_000_000] {
        assert_eq!(back_index(&back_label(index)), Some(index));
    }
}

fn parts(a: &str, b: &str, c: &str, d: bool) -> Option<(String, String, String, bool)> {
    Some((a.to_string(), b.to_string(), c.to_string(), d))
}

#[test]
fn file_naming_test_parse_filename_variants() {
    assert_eq!(parse_filename("hedge_fund@system_gateway.jpg"), parts("hedge_fund", "system_gateway", "front", false));
    assert_eq!(parse_filename("a-legion-of-one@emerald-core-set.jpg"), parts("a-legion-of-one", "emerald-core-set", "front", false));
    assert_eq!(
        parse_filename("sync_everything_everywhere@data_and_destiny~back.png"),
        parts("sync_everything_everywhere", "data_and_destiny", "back", false)
    );
    assert_eq!(parse_filename("hedge_fund@system_gateway~front.bleed.jpg"), parts("hedge_fund", "system_gateway", "front", true));
    assert_eq!(parse_filename("hedge_fund@system_gateway.bleed.png"), parts("hedge_fund", "system_gateway", "front", true));
    assert_eq!(parse_filename("hedge_fund~front.jpg"), None);
    assert_eq!(parse_filename("hedge_fund@multiple@ats.jpg"), None);
    assert_eq!(parse_filename("hedge_fund@dark-theme~back~extra.png"), None);
}

fn three(p: &str) -> Option<(String, String, String)> {
    collection_image_parts(p)
}

#[test]
fn collection_manager_test_parse_filename_variants() {
    let t = |a: &str, b: &str, c: &str| Some((a.to_string(), b.to_string(), c.to_string()));
    assert_eq!(three("hedge_fund@system_gateway.jpg"), t("hedge_fund", "system_gateway", "front"));
    assert_eq!(three("a-legion-of-one@emerald-core-set.jpg"), t("a-legion-of-one", "emerald-core-set", "front"));
    assert_eq!(three("sync_everything_everywhere@data_and_destiny~back.png"), t("sync_everything_everywhere", "data_and_destiny", "back"));
    assert_eq!(three("hedge_fund~front.jpg"), None);
    assert_eq!(three("hedge_fund@multiple@ats.jpg"), None);
    assert_eq!(three("hedge_fund@dark-theme~back~extra.png"), None);
}

#[test]
fn a_stem_is_read_without_a_path() {
    assert_eq!(parse_stem("x@y~back.bleed"), parts("x", "y", "back", true));
    assert_eq!(parse_stem("x@y~a~b"), None);
}

#[test]
fn a_file_name_is_read_by_its_stem() {
    use_parse_file_name();
}

fn use_parse_file_name() {
    let read = |name: &str| {
        proxynexus::file_naming::parse_file_name(name).map(|(c, p, s, b)| (c, p, s, b))
    };
    assert_eq!(
        read("hedge_fund@core_set.jpg"),
        Some(("hedge_fund".to_string(), "core_set".to_string(), "front".to_string(), false))
    );
    assert_eq!(
        read("sync_everything_everywhere@data_and_destiny~back.bleed.png"),
        Some(("sync_everything_everywhere".to_string(), "data_and_destiny".to_string(), "back".to_string(), true))
    );
    assert_eq!(read("no_at_sign.jpg"), None);
}

#[test]
fn a_path_is_read_by_its_final_component() {
    assert_eq!(file_name_of("collections/core/hedge_fund@core_set.jpg"), Some("hedge_fund@core_set.jpg".to_string()));
    assert_eq!(file_name_of("/usr/bin/"), Some("bin".to_string()));
    assert_eq!(file_name_of("foo.txt/.//"), Some("foo.txt".to_string()));
    assert_eq!(file_name_of("foo.txt/.."), None);
    assert_eq!(file_name_of("/"), None);
    assert_eq!(file_name_of(""), None);
    assert_eq!(file_name_of("."), None);
    assert_eq!(
        parse_filename("images/hedge_fund@system_gateway~back.bleed.png"),
        parts("hedge_fund", "system_gateway", "back", true)
    );
    assert_eq!(parse_filename("images/.."), None);
    assert_eq!(parse_filename(".hidden@x"), parts(".hidden", "x", "front", false));
}

#[test]
fn a_collection_image_keeps_its_bleed_word() {
    assert_eq!(
        collection_image_parts("images/x@p.bleed.jpg"),
        Some(("x".to_string(), "p.bleed".to_string(), "front".to_string()))
    );
}
