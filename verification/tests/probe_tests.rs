use dirsize::sizes::subtree_size;

#[test]
fn single_file_size_is_exact() {
    let metas = vec![Some(12345u64)];
    assert_eq!(subtree_size(&metas), 12345);
}

#[test]
fn nested_sizes_sum_exactly() {
    let metas = vec![Some(300u64), Some(700u64)];
    assert_eq!(subtree_size(&metas), 1000);
}

#[test]
fn sum_is_independent_of_traversal_order() {
    let forward = vec![Some(1u64), Some(2), Some(3), Some(4)];
    let backward = vec![Some(4u64), Some(3), Some(2), Some(1)];
    assert_eq!(subtree_size(&forward), subtree_size(&backward));
    assert_eq!(subtree_size(&forward), 10);
}

#[test]
fn unreadable_entries_count_as_zero() {
    let metas = vec![Some(3u64), None, Some(4), None];
    assert_eq!(subtree_size(&metas), 7);
}

#[test]
fn empty_subtree_is_zero() {
    let metas: Vec<Option<u64>> = Vec::new();
    assert_eq!(subtree_size(&metas), 0);
}

#[test]
fn oversized_total_saturates() {
    let metas = vec![Some(u64::MAX), Some(1u64), Some(7)];
    assert_eq!(subtree_size(&metas), u64::MAX);
}
