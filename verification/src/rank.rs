//! The median without sorting: how many values lie on either side of it.
//!
//! In a list of `n` values the median is the one value `m` with at most
//! `n / 2` values below it and more than `n / 2` values at or below it.

use crate::median::{
    ascending, lemma_middle_index_is_half, lemma_sorted_of_is_the_ascending_arrangement,
    median_of, sorted_of,
};
use vstd::prelude::*;
use vstd::seq_lib::{to_multiset_contains, to_multiset_len, to_multiset_remove};

verus! {

/// The number of positions of `s` that hold a `wanted` value.
pub open spec fn count_where(s: Seq<i32>, wanted: spec_fn(i32) -> bool) -> nat
    decreases s.len(),
{
    if s.len() == 0 {
        0
    } else {
        count_where(s.drop_last(), wanted) + if wanted(s.last()) {
            1nat
        } else {
            0nat
        }
    }
}

/// The number of positions of `s` that hold a value smaller than `bound`.
pub open spec fn count_below(s: Seq<i32>, bound: i32) -> nat {
    count_where(s, |v: i32| v < bound)
}

/// The number of positions of `s` that hold `bound` or a smaller value.
pub open spec fn count_at_most(s: Seq<i32>, bound: i32) -> nat {
    count_where(s, |v: i32| v <= bound)
}

/// `m` has at most half of the values of `s` below it, and more than half
/// of them at or below it.
pub open spec fn splits_in_the_middle(s: Seq<i32>, m: i32) -> bool {
    count_below(s, m) <= s.len() / 2 < count_at_most(s, m)
}

/// Counting over two lists joined is counting over each and adding up.
pub proof fn lemma_count_of_joined(a: Seq<i32>, b: Seq<i32>, wanted: spec_fn(i32) -> bool)
    ensures
        count_where(a + b, wanted) == count_where(a, wanted) + count_where(b, wanted),
    decreases b.len(),
{
    if b.len() == 0 {
        assert(a + b =~= a);
    } else {
        assert((a + b).drop_last() =~= a + b.drop_last());
        lemma_count_of_joined(a, b.drop_last(), wanted);
    }
}

/// A count never exceeds the length; it is the length where every value is
/// wanted, and zero where none is.
pub proof fn lemma_count_range(s: Seq<i32>, wanted: spec_fn(i32) -> bool)
    ensures
        count_where(s, wanted) <= s.len(),
        (forall|i: int| 0 <= i < s.len() ==> wanted(#[trigger] s[i])) ==> count_where(s, wanted)
            == s.len(),
        (forall|i: int| 0 <= i < s.len() ==> !wanted(#[trigger] s[i])) ==> count_where(s, wanted)
            == 0,
    decreases s.len(),
{
    if s.len() > 0 {
        let rest = s.drop_last();
        lemma_count_range(rest, wanted);
        assert(forall|i: int| 0 <= i < rest.len() ==> rest[i] == s[i]);
    }
}

/// Taking one position out of a list lowers the count by one where the
/// value there was wanted, and leaves it alone where it was not.
pub proof fn lemma_count_without(s: Seq<i32>, at: int, wanted: spec_fn(i32) -> bool)
    requires
        0 <= at < s.len(),
    ensures
        count_where(s, wanted) == count_where(s.remove(at), wanted) + if wanted(s[at]) {
            1nat
        } else {
            0nat
        },
{
    let front = s.take(at);
    let one = seq![s[at]];
    let back = s.skip(at + 1);
    assert(s =~= front + one + back);
    assert(s.remove(at) =~= front + back);
    lemma_count_of_joined(front + one, back, wanted);
    lemma_count_of_joined(front, one, wanted);
    lemma_count_of_joined(front, back, wanted);
    assert(one.drop_last() =~= Seq::<i32>::empty());
    assert(count_where(one.drop_last(), wanted) == 0);
    assert(one.last() == s[at]);
}

/// A count does not depend on the order of the values.
pub proof fn lemma_count_ignores_order(s: Seq<i32>, t: Seq<i32>, wanted: spec_fn(i32) -> bool)
    requires
        s.to_multiset() == t.to_multiset(),
    ensures
        count_where(s, wanted) == count_where(t, wanted),
    decreases s.len(),
{
    to_multiset_len(s);
    to_multiset_len(t);
    if s.len() > 0 {
        let last = s.len() - 1;
        let x = s[last];
        assert(s.contains(x));
        to_multiset_contains(s, x);
        to_multiset_contains(t, x);
        let at = choose|at: int| 0 <= at < t.len() && t[at] == x;
        to_multiset_remove(s, last);
        to_multiset_remove(t, at);
        assert(s.remove(last) =~= s.drop_last());
        lemma_count_ignores_order(s.drop_last(), t.remove(at), wanted);
        lemma_count_without(t, at, wanted);
    }
}

/// In an ascending list, positions in front of `at` are the only ones that
/// can hold a value below the one at `at`, and the positions up to `at` all
/// hold a value at or below it.
pub proof fn lemma_counts_in_ascending(t: Seq<i32>, at: int)
    requires
        ascending(t),
        0 <= at < t.len(),
    ensures
        count_below(t, t[at]) <= at < count_at_most(t, t[at]),
{
    let below = |v: i32| v < t[at];
    let at_most = |v: i32| v <= t[at];
    assert(t =~= t.take(at) + t.skip(at));
    lemma_count_of_joined(t.take(at), t.skip(at), below);
    lemma_count_range(t.take(at), below);
    assert forall|i: int| 0 <= i < t.skip(at).len() implies !below(#[trigger] t.skip(at)[i]) by {
        assert(t.skip(at)[i] == t[at + i]);
    }
    lemma_count_range(t.skip(at), below);

    assert(t =~= t.take(at + 1) + t.skip(at + 1));
    lemma_count_of_joined(t.take(at + 1), t.skip(at + 1), at_most);
    assert forall|i: int| 0 <= i < t.take(at + 1).len() implies at_most(
        #[trigger] t.take(at + 1)[i],
    ) by {
        assert(t.take(at + 1)[i] == t[i]);
    }
    lemma_count_range(t.take(at + 1), at_most);
}

/// The median of a non-empty list splits it in the middle, and no other
/// value does.
pub proof fn lemma_median_is_the_middle_split(s: Seq<i32>, v: i32)
    requires
        s.len() > 0,
    ensures
        splits_in_the_middle(s, median_of(s)),
        splits_in_the_middle(s, v) ==> v == median_of(s),
{
    let t = sorted_of(s);
    let half = (s.len() / 2) as int;
    let m = median_of(s);
    lemma_sorted_of_is_the_ascending_arrangement(s, s);
    lemma_middle_index_is_half(s.len());
    assert(m == t[half]);
    lemma_counts_in_ascending(t, half);
    lemma_count_ignores_order(s, t, |x: i32| x < m);
    lemma_count_ignores_order(s, t, |x: i32| x <= m);

    if splits_in_the_middle(s, v) && v != m {
        let below = |x: i32| x < v;
        let at_most = |x: i32| x <= v;
        lemma_count_ignores_order(s, t, below);
        lemma_count_ignores_order(s, t, at_most);
        if v < m {
            assert(t =~= t.take(half) + t.skip(half));
            lemma_count_of_joined(t.take(half), t.skip(half), at_most);
            lemma_count_range(t.take(half), at_most);
            assert forall|i: int| 0 <= i < t.skip(half).len() implies !at_most(
                #[trigger] t.skip(half)[i],
            ) by {
                assert(t.skip(half)[i] == t[half + i]);
            }
            lemma_count_range(t.skip(half), at_most);
            assert(false);
        } else {
            assert(t =~= t.take(half + 1) + t.skip(half + 1));
            lemma_count_of_joined(t.take(half + 1), t.skip(half + 1), below);
            assert forall|i: int| 0 <= i < t.take(half + 1).len() implies below(
                #[trigger] t.take(half + 1)[i],
            ) by {
                assert(t.take(half + 1)[i] == t[i]);
            }
            lemma_count_range(t.take(half + 1), below);
            assert(false);
        }
    }
}

} // verus!
