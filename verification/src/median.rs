//! The median of a list of signed integers.
//!
//! The median is read off the ascending arrangement of the list. For a list
//! of even length there are two central values; this crate picks the upper
//! one and never averages.

use crate::error::ErrorKind;
use crate::rank::{lemma_median_is_the_middle_split, splits_in_the_middle};
use vstd::multiset::Multiset;
use vstd::prelude::*;
use vstd::relations::{sorted_by, total_ordering};
use vstd::seq_lib::{lemma_sorted_unique, to_multiset_update};

verus! {

/// The order by which values are arranged: `a` stands before `b` when `a <= b`.
pub open spec fn at_most() -> spec_fn(i32, i32) -> bool {
    |a: i32, b: i32| a <= b
}

/// No value of `s` is followed by a smaller one.
pub open spec fn ascending(s: Seq<i32>) -> bool {
    forall|i: int, j: int| 0 <= i < j < s.len() ==> s[i] <= s[j]
}

/// The ascending arrangement of `s`: the same values, each as often as in
/// `s`, smallest first. See [`lemma_sorted_of_is_the_ascending_arrangement`].
pub open spec fn sorted_of(s: Seq<i32>) -> Seq<i32> {
    s.sort_by(at_most())
}

/// The position of the median in an ascending list of `count` values: the
/// centre for an odd count, the upper of the two central positions for an
/// even one.
pub open spec fn middle_index(count: nat) -> nat {
    if count % 2 != 0 {
        count / 2
    } else {
        (count + 1) / 2
    }
}

/// The median of a non-empty list: the value at the middle position of its
/// ascending arrangement.
pub open spec fn median_of(s: Seq<i32>) -> i32
    recommends
        s.len() > 0,
{
    sorted_of(s)[middle_index(s.len()) as int]
}

/// The ascending arrangement of `s` is ascending and holds every value as
/// often as `s` does; it is the only list of which both are true.
pub proof fn lemma_sorted_of_is_the_ascending_arrangement(s: Seq<i32>, t: Seq<i32>)
    ensures
        ascending(sorted_of(s)),
        sorted_of(s).to_multiset() == s.to_multiset(),
        sorted_of(s).len() == s.len(),
        ascending(t) && t.to_multiset() == s.to_multiset() ==> t == sorted_of(s),
{
    let arranged = sorted_of(s);
    assert(total_ordering(at_most()));
    s.lemma_sort_by_ensures(at_most());
    assert(ascending(arranged)) by {
        assert forall|i: int, j: int| 0 <= i < j < arranged.len() implies arranged[i]
            <= arranged[j] by {
            assert(at_most()(arranged[i], arranged[j]));
        }
    }
    arranged.to_multiset_ensures();
    s.to_multiset_ensures();
    if ascending(t) && t.to_multiset() == s.to_multiset() {
        assert(sorted_by(t, at_most()));
        lemma_sorted_unique(t, arranged, at_most());
    }
}

/// Arranging a list that is already in ascending order changes nothing, so
/// arranging twice gives what arranging once gives, and the median read
/// after a second arrangement is the median read after the first.
pub proof fn lemma_sorting_is_idempotent(s: Seq<i32>)
    ensures
        ascending(s) ==> sorted_of(s) == s,
        sorted_of(sorted_of(s)) == sorted_of(s),
        median_of(sorted_of(s)) == median_of(s),
{
    lemma_sorted_of_is_the_ascending_arrangement(s, s);
    lemma_sorted_of_is_the_ascending_arrangement(sorted_of(s), sorted_of(s));
}

/// The median does not depend on the order in which the values are given.
pub proof fn lemma_median_ignores_order(s: Seq<i32>, t: Seq<i32>)
    requires
        s.to_multiset() == t.to_multiset(),
    ensures
        sorted_of(s) == sorted_of(t),
        median_of(s) == median_of(t),
{
    lemma_sorted_of_is_the_ascending_arrangement(s, s);
    lemma_sorted_of_is_the_ascending_arrangement(t, sorted_of(s));
}

/// The middle position is `count / 2` whatever the parity of `count`, and
/// lies inside every non-empty list.
pub proof fn lemma_middle_index_is_half(count: nat)
    ensures
        middle_index(count) == count / 2,
        count > 0 ==> middle_index(count) < count,
{
}

/// The median of a non-empty list is one of its values.
pub proof fn lemma_median_is_a_member(s: Seq<i32>)
    requires
        s.len() > 0,
    ensures
        s.contains(median_of(s)),
{
    lemma_sorted_of_is_the_ascending_arrangement(s, s);
    lemma_middle_index_is_half(s.len());
    s.lemma_sort_by_ensures(at_most());
    let at = middle_index(s.len()) as int;
    assert(sorted_of(s).contains(sorted_of(s)[at]));
}

/// Exchanging the values at two positions of a list leaves every value in
/// it, as often as before.
pub proof fn lemma_exchange_keeps_values(s: Seq<i32>, i: int, j: int)
    requires
        0 <= i < s.len(),
        0 <= j < s.len(),
        i != j,
    ensures
        s.update(i, s[j]).update(j, s[i]).to_multiset() == s.to_multiset(),
{
    broadcast use vstd::multiset::group_multiset_axioms;

    let halfway = s.update(i, s[j]);
    let held = s.to_multiset();
    let after = held.insert(s[j]).remove(s[i]).insert(s[i]).remove(s[j]);
    to_multiset_update(s, i, s[j]);
    to_multiset_update(halfway, j, s[i]);
    s.to_multiset_ensures();
    assert(s.contains(s[i]));
    assert forall|v: i32| after.count(v) == held.count(v) by {
        assert(Multiset::singleton(s[i]).count(v) == if v == s[i] { 1nat } else { 0nat });
        assert(Multiset::singleton(s[j]).count(v) == if v == s[j] { 1nat } else { 0nat });
    }
    assert(after =~= held);
}

/// Rearranges `numbers` into ascending order, in place: afterwards no value
/// is followed by a smaller one, and every value is there as often as
/// before.
pub fn sort_ascending(numbers: &mut Vec<i32>)
    ensures
        final(numbers)@ == sorted_of(old(numbers)@),
        ascending(final(numbers)@),
        final(numbers)@.to_multiset() == old(numbers)@.to_multiset(),
        final(numbers)@.len() == old(numbers)@.len(),
{
    let ghost given = numbers@;
    let count: usize = numbers.len();
    let mut placed: usize = 0;
    while placed < count
        invariant
            placed <= count,
            count == numbers@.len(),
            numbers@.to_multiset() == given.to_multiset(),
            forall|a: int, b: int| 0 <= a < b < placed ==> numbers@[a] <= numbers@[b],
        decreases count - placed,
    {
        let mut slot: usize = placed;
        while slot > 0 && numbers[slot - 1] > numbers[slot]
            invariant
                slot <= placed < count,
                count == numbers@.len(),
                numbers@.to_multiset() == given.to_multiset(),
                forall|a: int, b: int|
                    0 <= a < b <= placed && b != slot ==> numbers@[a] <= numbers@[b],
            decreases slot,
        {
            let ghost before = numbers@;
            let lower: i32 = numbers[slot - 1];
            let upper: i32 = numbers[slot];
            numbers[slot - 1] = upper;
            numbers[slot] = lower;
            proof {
                lemma_exchange_keeps_values(before, slot - 1, slot as int);
            }
            slot = slot - 1;
        }
        placed = placed + 1;
    }
    proof {
        assert(ascending(numbers@));
        lemma_sorted_of_is_the_ascending_arrangement(given, numbers@);
    }
}

/// Arranges `numbers` in ascending order and returns their median.
///
/// On an empty list there is no median: the call fails with
/// [`ErrorKind::InvalidArgument`], and only then. Otherwise the result is
/// the value at the middle position of the arranged list. It is one of the
/// values given, at most half of them lie below it, and more than half lie
/// at or below it. In either case `numbers` is left in ascending order.
pub fn find_median(numbers: &mut Vec<i32>) -> (found: Result<i32, ErrorKind>)
    ensures
        final(numbers)@ == sorted_of(old(numbers)@),
        ascending(final(numbers)@),
        final(numbers)@.to_multiset() == old(numbers)@.to_multiset(),
        final(numbers)@.len() == old(numbers)@.len(),
        old(numbers)@.len() == 0 ==> found == Err::<i32, ErrorKind>(ErrorKind::InvalidArgument),
        old(numbers)@.len() > 0 ==> found == Ok::<i32, ErrorKind>(median_of(old(numbers)@)),
        found matches Ok(m) ==> old(numbers)@.contains(m),
        found matches Ok(m) ==> splits_in_the_middle(old(numbers)@, m),
{
    let ghost given = numbers@;
    sort_ascending(numbers);
    let count: usize = numbers.len();
    proof {
        lemma_sorted_of_is_the_ascending_arrangement(given, numbers@);
        lemma_middle_index_is_half(given.len());
    }
    if count == 0 {
        return Err(ErrorKind::InvalidArgument);
    }
    proof {
        lemma_median_is_a_member(given);
        lemma_median_is_the_middle_split(given, median_of(given));
    }
    Ok(numbers[count / 2])
}

/// Returns the median of `values` and leaves them as they are.
///
/// On an empty list there is no median: the call fails with
/// [`ErrorKind::InvalidArgument`], and only then. Otherwise the result is
/// the value at the middle position of the ascending arrangement of
/// `values`, which is one of them.
pub fn median(values: &[i32]) -> (found: Result<i32, ErrorKind>)
    ensures
        values@.len() == 0 ==> found == Err::<i32, ErrorKind>(ErrorKind::InvalidArgument),
        values@.len() > 0 ==> found == Ok::<i32, ErrorKind>(median_of(values@)),
        found matches Ok(m) ==> values@.contains(m),
        found matches Ok(m) ==> splits_in_the_middle(values@, m),
{
    let mut numbers: Vec<i32> = Vec::new();
    let mut at: usize = 0;
    while at < values.len()
        invariant
            at <= values@.len(),
            numbers@ == values@.take(at as int),
        decreases values@.len() - at,
    {
        numbers.push(values[at]);
        assert(numbers@ =~= values@.take(at + 1));
        at = at + 1;
    }
    assert(numbers@ =~= values@);
    find_median(&mut numbers)
}

} // verus!
