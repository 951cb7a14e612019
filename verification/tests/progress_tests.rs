use dirsize::progress::ProgressTracker;

#[test]
fn reset_sets_total_and_clears_completions() {
    let mut t = ProgressTracker::new();
    t.reset(5);
    assert_eq!(t.percent(), 0);
    t.record_one();
    t.record_one();
    t.reset(3);
    assert_eq!(t.percent(), 0);
}

#[test]
fn percent_is_floored() {
    let mut t = ProgressTracker::new();
    t.reset(3);
    t.record_one();
    assert_eq!(t.percent(), 33);
    t.record_one();
    assert_eq!(t.percent(), 66);
    t.record_one();
    assert_eq!(t.percent(), 100);
}

#[test]
fn empty_total_shows_zero_percent() {
    let mut t = ProgressTracker::new();
    t.reset(0);
    assert_eq!(t.percent(), 0);
}

#[test]
fn force_complete_always_lands_on_one_hundred() {
    let mut t = ProgressTracker::new();
    t.reset(7);
    t.record_one();
    assert_eq!(t.percent(), 14);
    t.force_complete();
    assert_eq!(t.percent(), 100);

    let mut empty = ProgressTracker::new();
    empty.reset(0);
    empty.force_complete();
    assert_eq!(empty.percent(), 100);
}

#[test]
fn each_completion_counts_exactly_once() {
    let mut t = ProgressTracker::new();
    let n = 25u64;
    t.reset(n);
    for done in 1..=n {
        t.record_one();
        assert_eq!(t.percent(), done * 100 / n);
    }
    assert_eq!(t.percent(), 100);
}
