//! Counting up from zero to a bound, with the bound counted in or left out.
//!
//! A [`CountingRange`] is lazy: it holds its bound and a position, not its
//! values. It hands them out one by one and can be sent back to its start.

use vstd::prelude::*;

verus! {

/// The values counted from zero to `end`: `0, 1, .., end` where the bound is
/// `inclusive`, and `0, 1, .., end - 1` where it is not.
///
/// With `end == 0` and the bound left out there is nothing to count: the
/// sequence is empty.
pub open spec fn counting(end: u32, inclusive: bool) -> Seq<u32> {
    Seq::new(
        if inclusive {
            (end + 1) as nat
        } else {
            end as nat
        },
        |i: int| i as u32,
    )
}

/// A finite run of the numbers `0, 1, 2, ..`, with a position in it.
#[derive(Clone, Copy, Debug)]
pub struct CountingRange {
    next: u64,
    stop: u64,
}

impl CountingRange {
    /// The position never passes the end, and the end is one that a `u32`
    /// bound can give.
    pub closed spec fn wf(&self) -> bool {
        self.next <= self.stop <= 0x1_0000_0000
    }

    /// All the values of the range, wherever the position stands.
    pub closed spec fn items(&self) -> Seq<u32> {
        Seq::new(self.stop as nat, |i: int| i as u32)
    }

    /// How many values have been handed out since the start.
    pub closed spec fn position(&self) -> nat {
        self.next as nat
    }

    /// The values still to be handed out.
    pub open spec fn remaining(&self) -> Seq<u32>
        recommends
            self.wf(),
    {
        self.items().skip(self.position() as int)
    }

    /// A range counts up from zero without a gap, holds no more values than
    /// there are `u32` numbers, and its position lies inside it or at its
    /// end.
    pub proof fn lemma_counts_from_zero(&self)
        requires
            self.wf(),
        ensures
            self.items().len() <= 0x1_0000_0000,
            forall|i: int| 0 <= i < self.items().len() ==> #[trigger] self.items()[i] == i,
            self.position() <= self.items().len(),
            self.remaining().len() == self.items().len() - self.position(),
    {
    }

    /// The number of values in the range.
    pub fn len(&self) -> (count: u64)
        requires
            self.wf(),
        ensures
            count == self.items().len(),
    {
        self.stop
    }

    /// Tells whether the range holds no value at all.
    pub fn is_empty(&self) -> (empty: bool)
        requires
            self.wf(),
        ensures
            empty == (self.items().len() == 0),
    {
        self.stop == 0
    }

    /// The value at `index`, or `None` where the range is shorter.
    pub fn get(&self, index: u64) -> (value: Option<u32>)
        requires
            self.wf(),
        ensures
            index < self.items().len() ==> value == Some(self.items()[index as int]),
            index >= self.items().len() ==> value is None,
    {
        if index < self.stop {
            Some(index as u32)
        } else {
            None
        }
    }

    /// Hands out the next value and moves the position past it, or returns
    /// `None`, and changes nothing, once every value has been handed out.
    pub fn next(&mut self) -> (value: Option<u32>)
        requires
            old(self).wf(),
        ensures
            final(self).wf(),
            final(self).items() == old(self).items(),
            old(self).remaining().len() > 0 ==> value == Some(old(self).remaining()[0]),
            old(self).remaining().len() > 0 ==> final(self).position() == old(self).position() + 1,
            old(self).remaining().len() > 0 ==> final(self).remaining() == old(self).remaining().drop_first(),
            old(self).remaining().len() == 0 ==> final(self).remaining() == old(self).remaining(),
            old(self).remaining().len() == 0 ==> value is None,
            old(self).remaining().len() == 0 ==> final(self).position() == old(self).position(),
    {
        if self.next < self.stop {
            let value: u32 = self.next as u32;
            self.next = self.next + 1;
            assert(self.remaining() =~= old(self).remaining().drop_first());
            Some(value)
        } else {
            None
        }
    }

    /// Sends the position back to the start, so that the same values are
    /// handed out once more.
    pub fn restart(&mut self)
        requires
            old(self).wf(),
        ensures
            final(self).wf(),
            final(self).items() == old(self).items(),
            final(self).position() == 0,
            final(self).remaining() == old(self).items(),
    {
        self.next = 0;
    }

    /// All the values of the range in a vector, wherever the position
    /// stands. The caller sees to it that their number fits a `usize`.
    pub fn to_vec(&self) -> (values: Vec<u32>)
        requires
            self.wf(),
            self.items().len() <= usize::MAX,
        ensures
            values@ == self.items(),
    {
        let mut values: Vec<u32> = Vec::new();
        let mut at: u64 = 0;
        while at < self.stop
            invariant
                self.wf(),
                at <= self.stop,
                self.stop <= usize::MAX,
                values@.len() == at,
                forall|i: int| 0 <= i < at ==> values@[i] == i as u32,
            decreases self.stop - at,
        {
            values.push(at as u32);
            at = at + 1;
        }
        assert(values@ =~= self.items());
        values
    }
}

/// The range that counts from zero to `end`, with `end` itself as its last
/// value where `inclusive` is set, and `end - 1` where it is not.
///
/// Nothing lies below zero: with `end == 0` and `inclusive` unset the range
/// is empty. No bound is refused.
pub fn inclusive_or_exclusive_range(end: u32, inclusive: bool) -> (range: CountingRange)
    ensures
        range.wf(),
        range.items() == counting(end, inclusive),
        range.position() == 0,
        range.remaining() == counting(end, inclusive),
{
    let stop: u64 = if inclusive {
        end as u64 + 1
    } else {
        end as u64
    };
    let range = CountingRange { next: 0, stop };
    assert(range.items() =~= counting(end, inclusive));
    assert(range.remaining() =~= range.items());
    range
}

} // verus!
