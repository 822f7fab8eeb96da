use handbook::{inclusive_or_exclusive_range, CountingRange};

fn drain(range: &mut CountingRange) -> Vec<u32> {
    let mut seen = Vec::new();
    while let Some(value) = range.next() {
        seen.push(value);
    }
    seen
}

#[test]
fn inclusive_range_counts_the_bound_in() {
    let range = inclusive_or_exclusive_range(10, true);
    assert_eq!(range.to_vec(), vec![0, 1, 2, 3, 4, 5, 6, 7, 8, 9, 10]);
    assert_eq!(range.len(), 11);
}

#[test]
fn exclusive_range_stops_below_the_bound() {
    let range = inclusive_or_exclusive_range(10, false);
    assert_eq!(range.to_vec(), vec![0, 1, 2, 3, 4, 5, 6, 7, 8, 9]);
    assert_eq!(range.len(), 10);
}

#[test]
fn exclusive_range_to_zero_is_empty() {
    let mut range = inclusive_or_exclusive_range(0, false);
    assert!(range.is_empty());
    assert_eq!(range.len(), 0);
    assert_eq!(range.to_vec(), Vec::<u32>::new());
    assert_eq!(range.next(), None);
    assert_eq!(range.get(0), None);
}

#[test]
fn inclusive_range_to_zero_holds_zero() {
    let mut range = inclusive_or_exclusive_range(0, true);
    assert!(!range.is_empty());
    assert_eq!(range.to_vec(), vec![0]);
    assert_eq!(range.next(), Some(0));
    assert_eq!(range.next(), None);
}

#[test]
fn exclusive_range_to_one_holds_zero() {
    let range = inclusive_or_exclusive_range(1, false);
    assert_eq!(range.to_vec(), vec![0]);
}

#[test]
fn range_hands_out_values_in_order() {
    let mut range = inclusive_or_exclusive_range(3, true);
    assert_eq!(range.next(), Some(0));
    assert_eq!(range.next(), Some(1));
    assert_eq!(range.next(), Some(2));
    assert_eq!(range.next(), Some(3));
    assert_eq!(range.next(), None);
    assert_eq!(range.next(), None);
}

#[test]
fn range_can_be_restarted() {
    let mut range = inclusive_or_exclusive_range(4, false);
    assert_eq!(drain(&mut range), vec![0, 1, 2, 3]);
    assert_eq!(drain(&mut range), Vec::<u32>::new());
    range.restart();
    assert_eq!(drain(&mut range), vec![0, 1, 2, 3]);
    range.restart();
    assert_eq!(range.next(), Some(0));
    range.restart();
    assert_eq!(range.next(), Some(0));
}

#[test]
fn range_is_lazy_up_to_the_largest_bound() {
    let mut range = inclusive_or_exclusive_range(u32::MAX, true);
    assert_eq!(range.len(), 4_294_967_296);
    assert_eq!(range.get(u32::MAX as u64), Some(u32::MAX));
    assert_eq!(range.get(u32::MAX as u64 + 1), None);
    assert_eq!(range.next(), Some(0));
    let range = inclusive_or_exclusive_range(u32::MAX, false);
    assert_eq!(range.len(), 4_294_967_295);
    assert_eq!(range.get(u32::MAX as u64 - 1), Some(u32::MAX - 1));
    assert_eq!(range.get(u32::MAX as u64), None);
}

#[test]
fn range_get_reads_by_index() {
    let range = inclusive_or_exclusive_range(5, false);
    assert_eq!(range.get(0), Some(0));
    assert_eq!(range.get(4), Some(4));
    assert_eq!(range.get(5), None);
    let range = inclusive_or_exclusive_range(5, true);
    assert_eq!(range.get(5), Some(5));
    assert_eq!(range.get(6), None);
}

#[test]
fn range_values_do_not_depend_on_the_position() {
    let mut range = inclusive_or_exclusive_range(2, true);
    assert_eq!(range.next(), Some(0));
    assert_eq!(range.to_vec(), vec![0, 1, 2]);
    assert_eq!(range.len(), 3);
    let mut copy = range.clone();
    assert_eq!(copy.next(), Some(1));
    assert_eq!(range.next(), Some(1));
}
