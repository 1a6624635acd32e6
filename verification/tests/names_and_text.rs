use hermes_rs::io::{
    count_snapshots, find_snapshot_names, is_snapshot_file_name, observer_file_name,
    snapshot_file_name, FileObserver,
};
use hermes_rs::text::{compare_text, has_prefix, has_suffix, push_padded_decimal, TextOrder};

#[test]
fn compare_text_orders_by_characters() {
    assert_eq!(compare_text("abc", "abd"), TextOrder::Less);
    assert_eq!(compare_text("abd", "abc"), TextOrder::Greater);
    assert_eq!(compare_text("abc", "abc"), TextOrder::Equal);
    assert_eq!(compare_text("ab", "abc"), TextOrder::Less);
    assert_eq!(compare_text("", "a"), TextOrder::Less);
    assert_eq!(compare_text("Z", "a"), TextOrder::Less);
}

#[test]
fn prefixes_and_suffixes() {
    assert!(has_prefix("snapshot-00001.bin", "snapshot-"));
    assert!(!has_prefix("snap", "snapshot-"));
    assert!(has_suffix("scene.toml", ".toml"));
    assert!(!has_suffix("scene.tom", ".toml"));
    assert!(has_suffix("x", ""));
}

#[test]
fn padded_decimal_matches_format() {
    for n in [0usize, 7, 42, 99999, 100000, 1234567] {
        let mut s = String::new();
        push_padded_decimal(&mut s, n, 5);
        assert_eq!(s, format!("{:05}", n));
    }
    let mut s = String::from("x");
    push_padded_decimal(&mut s, 3, 0);
    assert_eq!(s, "x3");
}

#[test]
fn snapshot_names_match_writer_and_observer_formats() {
    assert_eq!(snapshot_file_name(42), "snapshot-00042.bin");
    assert_eq!(snapshot_file_name(123456), "snapshot-123456.bin");
    assert_eq!(observer_file_name(7), "snapshot_00007.bin");
}

#[test]
fn written_snapshots_are_recognized_observer_ones_are_not() {
    for step in [0usize, 1, 999, 100000] {
        assert!(is_snapshot_file_name(&snapshot_file_name(step)));
        assert!(!is_snapshot_file_name(&observer_file_name(step)));
    }
    assert!(!is_snapshot_file_name("snapshot-1.txt"));
    assert!(!is_snapshot_file_name("notes.bin"));
}

#[test]
fn snapshot_names_sort_by_step() {
    assert!(snapshot_file_name(9) < snapshot_file_name(10));
    assert!(snapshot_file_name(999) < snapshot_file_name(99999));
    // Past five digits the order breaks, as the zero padding runs out.
    assert!(snapshot_file_name(100000) < snapshot_file_name(99999));
}

#[test]
fn count_and_find_snapshots() {
    let names: Vec<String> = vec![
        "snapshot-00010.bin",
        "readme.txt",
        "snapshot-00002.bin",
        "snapshot_00003.bin",
        "snapshot-00001.bin",
    ]
    .into_iter()
    .map(String::from)
    .collect();
    assert_eq!(count_snapshots(&names), 3);
    let found = find_snapshot_names(names);
    assert_eq!(found, vec!["snapshot-00001.bin", "snapshot-00002.bin", "snapshot-00010.bin"]);
    assert_eq!(count_snapshots(&Vec::new()), 0);
}

#[test]
fn file_observer_counts_saved_snapshots() {
    let mut obs = FileObserver::new("data/run".to_string());
    assert_eq!(obs.n_saved(), 0);
    assert!(!obs.reports_on_complete());
    obs.record_outcome(true);
    obs.record_outcome(false);
    obs.record_outcome(true);
    assert_eq!(obs.n_saved(), 2);
    assert!(obs.reports_on_complete());
    assert_eq!(obs.directory(), "data/run");
    assert_eq!(obs.file_name(3), "snapshot_00003.bin");
}

#[test]
fn written_snapshots_play_back_in_step_order() {
    let steps: Vec<usize> = vec![40, 7, 300, 0, 12, 99999, 1000];
    let names: Vec<String> = steps.iter().map(|s| snapshot_file_name(*s)).collect();
    let n = count_snapshots(&names);
    let found = find_snapshot_names(names);
    assert_eq!(n, found.len());
    let mut sorted_steps = steps.clone();
    sorted_steps.sort();
    let expected: Vec<String> = sorted_steps.iter().map(|s| snapshot_file_name(*s)).collect();
    assert_eq!(found, expected);
}

#[test]
fn file_observer_counts_a_long_run_of_saves() {
    let outcomes = [true, false, false, true, true, false, true, true, false, true];
    let mut obs = FileObserver::new("out".to_string());
    for saved in outcomes {
        obs.record_outcome(saved);
    }
    assert_eq!(obs.n_saved(), outcomes.iter().filter(|s| **s).count());
    assert_eq!(obs.directory(), "out");
}
