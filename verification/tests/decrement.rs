use handbook::bounded_decrement;

#[test]
fn decrement_subtracts_the_count() {
    assert_eq!(bounded_decrement(10, 3), 7);
    assert_eq!(bounded_decrement(1000, 1000), 0);
}

#[test]
fn decrement_by_zero_returns_the_value() {
    assert_eq!(bounded_decrement(5, 0), 5);
    assert_eq!(bounded_decrement(0, 0), 0);
    assert_eq!(bounded_decrement(-17, 0), -17);
    assert_eq!(bounded_decrement(i64::MIN, 0), i64::MIN);
    assert_eq!(bounded_decrement(i64::MAX, 0), i64::MAX);
}

#[test]
fn decrement_may_pass_below_zero() {
    assert_eq!(bounded_decrement(2, 5), -3);
    assert_eq!(bounded_decrement(-2, 3), -5);
}

#[test]
fn decrement_reaches_the_smallest_value() {
    assert_eq!(bounded_decrement(i64::MIN + 4, 4), i64::MIN);
    assert_eq!(bounded_decrement(i64::MAX, 7), i64::MAX - 7);
}

#[test]
fn decrement_equals_subtraction_on_a_grid() {
    for value in -20i64..=20 {
        for n in 0u64..=25 {
            assert_eq!(bounded_decrement(value, n), value - n as i64);
        }
    }
}
