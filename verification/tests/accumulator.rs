use scroll_collect::accum::Accumulator;

#[test]
fn merge_reports_newly_added() {
    let mut acc = Accumulator::new();
    assert_eq!(acc.size(), 0);
    let d1 = acc.merge(&vec![b"a".to_vec(), b"b".to_vec()]);
    assert_eq!(d1, 2);
    assert_eq!(acc.size(), 2);
    let d2 = acc.merge(&vec![b"b".to_vec(), b"c".to_vec()]);
    assert_eq!(d2, 1);
    assert_eq!(acc.size(), 3);
}

#[test]
fn merging_the_same_identifier_twice_is_a_noop() {
    let mut acc = Accumulator::new();
    let d1 = acc.merge(&vec![b"a".to_vec()]);
    assert_eq!(d1, 1);
    let d2 = acc.merge(&vec![b"a".to_vec()]);
    assert_eq!(d2, 0);
    assert_eq!(acc.size(), 1);
}

#[test]
fn size_is_non_decreasing_and_counts_distinct() {
    let mut acc = Accumulator::new();
    let batches: Vec<Vec<Vec<u8>>> = vec![
        vec![b"a".to_vec(), b"b".to_vec()],
        vec![],
        vec![b"a".to_vec()],
        vec![b"c".to_vec(), b"a".to_vec(), b"d".to_vec()],
    ];
    let mut last_size = 0;
    for batch in &batches {
        acc.merge(batch);
        let size = acc.size();
        assert!(size >= last_size);
        last_size = size;
    }
    // distinct identifiers ever merged: a, b, c, d
    assert_eq!(acc.size(), 4);
}

#[test]
fn snapshot_holds_each_identifier_once_in_first_seen_order() {
    let mut acc = Accumulator::new();
    acc.merge(&vec![b"b".to_vec(), b"a".to_vec()]);
    acc.merge(&vec![b"a".to_vec(), b"c".to_vec()]);
    let snap = acc.snapshot();
    assert_eq!(
        snap,
        &vec![b"b".to_vec(), b"a".to_vec(), b"c".to_vec()]
    );
}
