use vai::fingerprint::Cell;
use vai::matcher::{after_round, FingerprintItem, FingerprintMatcher, Pause};

fn item(name: &str, x: i32, y: i32, light: u8, match_count: u32) -> FingerprintItem {
    FingerprintItem {
        path: "db".to_string(),
        filename: format!("{}_mc{}.txt", name, match_count),
        mask: format!("{}_mc{{mc}}.txt", name),
        match_count,
        x,
        y,
        table: (0..100usize).map(|k| Cell { index: k * 4, avg_light: light }).collect(),
    }
}

#[test]
fn do_match_finds_the_first_matching_item_and_counts_it() {
    let mut m = FingerprintMatcher::new();
    m.items.push(item("dark", 0, 0, 200, 4));
    m.items.push(item("grey", 10, 10, 50, 2));
    m.items.push(item("grey2", 10, 10, 48, 9));
    assert_eq!(m.do_match(&vec![false, true, true]), Some(1));
    assert_eq!(m.items[0].match_count, 4);
    assert_eq!(m.items[1].match_count, 3);
    assert_eq!(m.items[2].match_count, 9);
}

#[test]
fn do_match_without_a_match_changes_nothing() {
    let mut m = FingerprintMatcher::new();
    m.items.push(item("dark", 0, 0, 200, 4));
    m.items.push(item("bright", 20, 5, 255, 1));
    assert_eq!(m.do_match(&vec![false, false]), None);
    assert_eq!(m.items[0].match_count, 4);
    assert_eq!(m.items[1].match_count, 1);
    assert!(FingerprintMatcher::new().do_match(&Vec::new()).is_none());
}

#[test]
fn update_item_renames_by_the_match_count() {
    let mut m = FingerprintMatcher::new();
    m.items.push(item("fp_a_x1_y2_w20_h20", 1, 2, 0, 2));
    m.items[0].match_count = 3;
    let (before, after) = m.update_item(0);
    assert_eq!(before, "db/fp_a_x1_y2_w20_h20_mc2.txt");
    assert_eq!(after, "db/fp_a_x1_y2_w20_h20_mc3.txt");
    assert_eq!(m.items[0].filename, "fp_a_x1_y2_w20_h20_mc3.txt");
    assert_eq!(m.items[0].mask, "fp_a_x1_y2_w20_h20_mc{mc}.txt");
    assert_eq!(m.items[0].match_count, 3);
}

#[test]
fn sort_items_puts_the_most_matched_first_keeping_ties_in_order() {
    let mut m = FingerprintMatcher::new();
    m.items.push(item("one", 0, 0, 0, 1));
    m.items.push(item("five_a", 0, 0, 0, 5));
    m.items.push(item("three", 0, 0, 0, 3));
    m.items.push(item("five_b", 0, 0, 0, 5));
    m.sort_items();
    let names: Vec<&str> = m.items.iter().map(|i| i.filename.as_str()).collect();
    assert_eq!(names, vec!["five_a_mc5.txt", "five_b_mc5.txt", "three_mc3.txt", "one_mc1.txt"]);
}

#[test]
fn after_round_cools_down_after_two_confirmed_clicks() {
    assert_eq!(after_round(0, true, true), (1, Pause::Find));
    assert_eq!(after_round(1, true, true), (0, Pause::Cooldown));
    assert_eq!(after_round(1, true, false), (0, Pause::Find));
    assert_eq!(after_round(1, false, true), (0, Pause::Find));
    assert_eq!(after_round(0, false, false), (0, Pause::Find));
}
