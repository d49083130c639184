use amdfand::device::Card;
use amdfand::hw_mon::HwMon;
use amdfand::utils::{cards_from_names, hw_mons, linear_map};

fn sample_mons() -> Vec<HwMon> {
    vec![
        HwMon::new(Card(0), true, true),
        HwMon::new(Card(1), false, true),
        HwMon::new(Card(2), true, false),
        HwMon::new(Card(3), false, false),
        HwMon::new(Card(4), true, true),
    ]
}

#[test]
fn unfiltered_keeps_every_opened_monitor() {
    let mons = sample_mons();
    let kept = hw_mons(mons.clone(), false);
    assert_eq!(kept, mons);
}

#[test]
fn filtered_keeps_only_fully_eligible_monitors() {
    let kept = hw_mons(sample_mons(), true);
    assert_eq!(
        kept,
        vec![HwMon::new(Card(0), true, true), HwMon::new(Card(4), true, true)]
    );
}

#[test]
fn filtered_monitors_keep_input_order() {
    let mons = vec![
        HwMon::new(Card(7), true, true),
        HwMon::new(Card(2), true, true),
        HwMon::new(Card(5), true, true),
    ];
    let kept = hw_mons(mons.clone(), true);
    assert_eq!(kept, mons);
}

#[test]
fn cards_from_names_skips_foreign_entries() {
    let names = vec![
        "card0".to_string(),
        "renderD128".to_string(),
        "card1".to_string(),
        "version".to_string(),
        "cardX".to_string(),
        "card12".to_string(),
    ];
    assert_eq!(
        cards_from_names(&names),
        vec![Card(0), Card(1), Card(12)]
    );
}

#[test]
fn cards_from_names_empty_listing() {
    assert_eq!(cards_from_names(&vec![]), vec![]);
}

#[test]
fn linear_map_exact_values() {
    // The interpolation the default curve uses between 45 and 60 degrees.
    assert_eq!(linear_map(46_000, 45_000, 60_000, 50_000, 66_000), 51_066);
    assert_eq!(linear_map(45_000, 45_000, 60_000, 50_000, 66_000), 50_000);
    assert_eq!(linear_map(60_000, 45_000, 60_000, 50_000, 66_000), 66_000);
    // A flat speed range maps everything to that speed.
    assert_eq!(linear_map(3, 0, 10, 7, 7), 7);
}
