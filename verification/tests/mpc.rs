use proxynexus::mpc::{build_order_xml, escape, order_xml, Cardstock, MpcOptions, OrderPlan};

fn xml(quantity: usize, plan: &OrderPlan) -> String {
    build_order_xml(quantity, Cardstock::default(), plan)
}

#[test]
fn every_cardstock_is_spelled_the_way_the_autofill_tool_expects() {
    let expected = [
        (Cardstock::S27, "(S27) Smooth"),
        (Cardstock::S30, "(S30) Standard Smooth"),
        (Cardstock::S33, "(S33) Superior Smooth"),
        (Cardstock::M31, "(M31) Linen"),
        (Cardstock::P10, "(P10) Plastic"),
    ];
    for (stock, spelling) in expected {
        assert_eq!(stock.as_str(), spelling, "{:?}", stock);
    }
    assert_eq!(MpcOptions::default().cardstock, Cardstock::S30);
    assert_eq!(Cardstock::ALL.len(), expected.len(), "a stock is missing from ALL");
    assert!(Cardstock::ALL.contains(&MpcOptions::default().cardstock));
}

#[test]
fn each_planned_file_becomes_a_card_naming_its_slot() {
    let plan = OrderPlan {
        fronts: vec![
            ("card-images/hedge_fund-official-sg-1.jpg".into(), 0),
            ("card-images/hedge_fund-official-sg-2.jpg".into(), 1),
        ],
        ..OrderPlan::default()
    };
    let out = xml(2, &plan);
    assert!(out.contains("<quantity>2</quantity>"));
    assert!(out.contains("<id>./card-images/hedge_fund-official-sg-1.jpg</id>"));
    assert!(out.contains("<slots>0</slots>"));
    assert!(out.contains("<slots>1</slots>"));
    assert!(out.contains("<sourceType>Local File</sourceType>"));
}

#[test]
fn the_shared_back_covering_the_most_slots_becomes_the_common_cardback() {
    let plan = OrderPlan {
        shared: vec![
            ("corp-back.png".into(), 0),
            ("corp-back.png".into(), 1),
            ("corp-back.png".into(), 2),
            ("runner-back.png".into(), 3),
        ],
        ..OrderPlan::default()
    };
    let out = xml(4, &plan);
    assert!(out.contains("<cardback>./corp-back.png</cardback>"));
    assert!(!out.contains("./corp-back.png</id>"));
    assert!(out.contains("<id>./runner-back.png</id>"));
    assert!(out.contains("<slots>3</slots>"));
}

#[test]
fn a_cards_own_back_is_listed_against_its_slot_and_leaves_the_cardback_empty() {
    let plan = OrderPlan {
        fronts: vec![("card-images/a-official-x-1.jpg".into(), 0)],
        backs: vec![("card-images/a-official-x-1-back.jpg".into(), 0)],
        ..OrderPlan::default()
    };
    let out = xml(1, &plan);
    assert!(out.contains("<backs>"));
    assert!(out.contains("<id>./card-images/a-official-x-1-back.jpg</id>"));
    assert!(out.contains("<cardback></cardback>"));
    assert!(out.contains("<foil>false</foil>"));
}

#[test]
fn markup_characters_in_a_path_are_escaped() {
    let plan = OrderPlan {
        fronts: vec![("card-images/a&b-official-x-1.jpg".into(), 0)],
        ..OrderPlan::default()
    };
    let out = xml(1, &plan);
    assert!(out.contains("<id>./card-images/a&amp;b-official-x-1.jpg</id>"));
    assert!(!out.contains("a&b-official"));
}

#[test]
fn every_markup_character_has_its_entity() {
    assert_eq!(escape("a&b<c>d\"e"), "a&amp;b&lt;c&gt;d&quot;e");
    assert_eq!(escape("plain"), "plain");
}

#[test]
fn autofilling_cards_that_have_no_back_image_is_an_error() {
    let plan = OrderPlan {
        fronts: vec![("card-images/a-official-x-1.jpg".into(), 0)],
        ..OrderPlan::default()
    };
    assert!(order_xml(1, Cardstock::S30, &plan).is_err());
}

#[test]
fn the_chosen_cardstock_is_written_into_the_order() {
    let plan = OrderPlan { shared: vec![("corp-back.png".into(), 0)], ..OrderPlan::default() };
    let out = order_xml(1, Cardstock::P10, &plan).unwrap();
    assert!(out.contains("<stock>(P10) Plastic</stock>"));
}

use proxynexus::mpc::{keeps_source_bytes, plan_file, sort_requests, ImageCursor, ImageRequest};
use proxynexus::models::SourceImage;

fn request(key: &str, slot: usize) -> ImageRequest {
    ImageRequest {
        printing: 0,
        side_name: "front".into(),
        source: SourceImage { key: key.into(), has_bleed: false },
        copy_num: 1,
        slot,
    }
}

#[test]
fn requests_are_fetched_by_scan_keeping_their_order_within_one() {
    let sorted = sort_requests(vec![request("b.jpg", 0), request("a.jpg", 1), request("b.jpg", 2), request("a.jpg", 3)]);
    let order: Vec<(String, usize)> = sorted.iter().map(|r| (r.source.key.clone(), r.slot)).collect();
    assert_eq!(
        order,
        vec![("a.jpg".into(), 1), ("a.jpg".into(), 3), ("b.jpg".into(), 0), ("b.jpg".into(), 2)]
    );
}

#[test]
fn without_the_xml_every_copy_still_gets_its_own_file() {
    let mut cursor = ImageCursor::default();
    let first = cursor.step("a.jpg", false, "card-images/a-official-x-1.jpg".into());
    assert!(first.fetch && first.write);
    let second = cursor.step("a.jpg", false, "card-images/a-official-x-2.jpg".into());
    assert!(!second.fetch && second.write);
    assert_eq!(second.path, "card-images/a-official-x-2.jpg");
}

#[test]
fn with_the_xml_repeat_copies_share_one_file() {
    let mut cursor = ImageCursor::default();
    let first = cursor.step("a.jpg", true, "card-images/a-official-x-1.jpg".into());
    assert!(first.fetch && first.write);
    let second = cursor.step("a.jpg", true, "card-images/a-official-x-2.jpg".into());
    assert!(!second.fetch && !second.write);
    assert_eq!(second.path, "card-images/a-official-x-1.jpg");
    let third = cursor.step("b.jpg", true, "card-images/b-official-x-1.jpg".into());
    assert!(third.fetch && third.write);
    assert_eq!(third.path, "card-images/b-official-x-1.jpg");
}

#[test]
fn a_bled_jpeg_or_png_goes_in_as_it_came() {
    assert!(keeps_source_bytes(true, false, true));
    assert!(!keeps_source_bytes(true, true, true));
    assert!(!keeps_source_bytes(false, false, true));
    assert!(!keeps_source_bytes(true, false, false));
}

#[test]
fn a_planned_file_is_listed_by_its_side() {
    let mut plan = OrderPlan::default();
    plan_file(&mut plan, "front", "f.jpg".into(), 0);
    plan_file(&mut plan, "back", "b.jpg".into(), 0);
    assert_eq!(plan.fronts, vec![("f.jpg".to_string(), 0)]);
    assert_eq!(plan.backs, vec![("b.jpg".to_string(), 0)]);
}
