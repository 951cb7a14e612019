use dirsize::engine::Scanner;

fn paths_and_sizes(s: &Scanner) -> Vec<(String, u64)> {
    s.snapshot().into_iter().map(|e| (e.path, e.size)).collect()
}

#[test]
fn full_scan_reports_progress_and_sorts() {
    let mut s = Scanner::new();
    assert!(!s.is_active());
    assert_eq!(s.percent(), 0);

    assert!(s.begin());
    assert!(s.is_active());
    s.dispatch(2);
    assert_eq!(s.percent(), 0);

    s.record("root/a", 10);
    assert_eq!(s.percent(), 50);
    s.record("root/b", 20);
    assert_eq!(s.percent(), 100);

    s.finish();
    assert!(!s.is_active());
    assert_eq!(s.percent(), 100);
    assert_eq!(
        paths_and_sizes(&s),
        vec![("root/b".to_string(), 20), ("root/a".to_string(), 10)]
    );
}

#[test]
fn sort_is_descending_and_stable_for_ties() {
    let mut s = Scanner::new();
    assert!(s.begin());
    s.dispatch(4);
    s.record("a", 300);
    s.record("b", 100);
    s.record("c", 900);
    s.record("d", 100);
    s.finish();
    assert_eq!(
        paths_and_sizes(&s),
        vec![
            ("c".to_string(), 900),
            ("a".to_string(), 300),
            ("b".to_string(), 100),
            ("d".to_string(), 100),
        ]
    );
}

#[test]
fn overlapping_scan_is_refused_and_changes_nothing() {
    let mut s = Scanner::new();
    assert!(s.begin());
    s.dispatch(2);
    s.record("first/x", 7);

    // A second scan request while the first is active is dropped whole.
    assert!(!s.begin());
    assert!(s.is_active());
    assert_eq!(s.percent(), 50);
    assert_eq!(paths_and_sizes(&s), vec![("first/x".to_string(), 7)]);

    // The first scan carries on undisturbed.
    s.record("first/y", 9);
    s.finish();
    assert_eq!(
        paths_and_sizes(&s),
        vec![("first/y".to_string(), 9), ("first/x".to_string(), 7)]
    );
}

#[test]
fn removal_hides_entry_before_any_filesystem_work() {
    let mut s = Scanner::new();
    assert!(s.begin());
    s.dispatch(3);
    s.record("keep/a", 5);
    s.record("gone/b", 50);
    s.record("keep/c", 500);
    s.finish();

    // The presentation layer deletes the middle entry of the sorted view.
    assert_eq!(s.result_at(1).path, "gone/b");
    let removed = s.remove_result(1);
    assert_eq!(removed.path, "gone/b");
    assert_eq!(removed.size, 50);

    let after = paths_and_sizes(&s);
    assert_eq!(
        after,
        vec![("keep/c".to_string(), 500), ("keep/a".to_string(), 5)]
    );
    assert!(after.iter().all(|(p, _)| p != "gone/b"));
}

#[test]
fn rescan_gives_identical_sorted_sequence() {
    let mut first = Scanner::new();
    assert!(first.begin());
    first.dispatch(3);
    first.record("a", 300);
    first.record("b", 100);
    first.record("c", 900);
    first.finish();

    // The second run's workers finish in a different order.
    let mut second = Scanner::new();
    assert!(second.begin());
    second.dispatch(3);
    second.record("c", 900);
    second.record("b", 100);
    second.record("a", 300);
    second.finish();

    assert_eq!(paths_and_sizes(&first), paths_and_sizes(&second));
}

#[test]
fn completion_count_is_order_independent() {
    let children = [("a", 1u64), ("b", 2), ("c", 3), ("d", 4)];
    let mut forward = Scanner::new();
    assert!(forward.begin());
    forward.dispatch(4);
    for (p, n) in children {
        forward.record(p, n);
    }
    let mut backward = Scanner::new();
    assert!(backward.begin());
    backward.dispatch(4);
    for (p, n) in children.iter().rev() {
        backward.record(p, *n);
    }
    assert_eq!(forward.percent(), 100);
    assert_eq!(backward.percent(), 100);
    assert_eq!(forward.result_count(), 4);
    assert_eq!(backward.result_count(), 4);
}

#[test]
fn recorded_paths_are_normalized_for_display() {
    let mut s = Scanner::new();
    assert!(s.begin());
    s.dispatch(1);
    s.record("C:\\Users\\someone\\Downloads", 42);
    s.finish();
    assert_eq!(
        paths_and_sizes(&s),
        vec![("C:/Users/someone/Downloads".to_string(), 42)]
    );
}

#[test]
fn missing_root_scans_as_empty_and_completes() {
    let mut s = Scanner::new();
    assert!(s.begin());
    s.dispatch(0);
    s.finish();
    assert!(!s.is_active());
    assert_eq!(s.percent(), 100);
    assert_eq!(s.result_count(), 0);
}

#[test]
fn reuse_after_finish_starts_clean() {
    let mut s = Scanner::new();
    assert!(s.begin());
    s.dispatch(1);
    s.record("old/entry", 11);
    s.finish();

    assert!(s.begin());
    assert_eq!(s.result_count(), 0);
    assert_eq!(s.percent(), 0);
    s.dispatch(1);
    s.record("new/entry", 22);
    s.finish();
    assert_eq!(paths_and_sizes(&s), vec![("new/entry".to_string(), 22)]);
}
