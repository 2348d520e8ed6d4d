//! A bounded list that keeps the `n` most recently pushed items, newest first.

use std::collections::vec_deque::Iter;
use std::collections::VecDeque;
use vstd::prelude::*;
use vstd::std_specs::iter::IteratorSpec;

verus! {

broadcast use vstd::std_specs::vecdeque::group_vec_dequeue_axioms;

/// The sequence that pushing `item` in front of `items` and keeping at most
/// `n` of them gives.
pub open spec fn push_bounded<T>(items: Seq<T>, item: T, n: nat) -> Seq<T> {
    let s = seq![item] + items;
    if s.len() <= n {
        s
    } else {
        s.take(n as int)
    }
}

/// Pushing keeps at most `n` items: the new item first, then the items that
/// were kept, in their order, the oldest dropped where there is no room.
pub proof fn lemma_push_bounded_shape<T>(items: Seq<T>, item: T, n: nat)
    ensures
        push_bounded(items, item, n).len() == if items.len() + 1 <= n {
            items.len() + 1
        } else {
            n
        },
        n > 0 ==> push_bounded(items, item, n)[0] == item,
        forall|i: int|
            1 <= i < push_bounded(items, item, n).len() ==> #[trigger] push_bounded(
                items,
                item,
                n,
            )[i] == items[i - 1],
{
}

/// What pushing `items`, in order, into an empty list that keeps at most `n`
/// items leaves in it.
pub open spec fn pushed_all<T>(items: Seq<T>, n: nat) -> Seq<T>
    decreases items.len(),
{
    if items.len() == 0 {
        Seq::empty()
    } else {
        push_bounded(pushed_all(items.drop_last(), n), items.last(), n)
    }
}

/// After `k` pushes into an empty list that keeps at most `n` items, it holds
/// the `min(n, k)` newest items, newest first.
pub proof fn lemma_pushed_all<T>(items: Seq<T>, n: nat)
    ensures
        pushed_all(items, n).len() == if items.len() <= n {
            items.len()
        } else {
            n
        },
        forall|i: int|
            0 <= i < pushed_all(items, n).len() ==> #[trigger] pushed_all(items, n)[i]
                == items[items.len() - 1 - i],
    decreases items.len(),
{
    if items.len() > 0 {
        let prev = items.drop_last();
        lemma_pushed_all(prev, n);
        lemma_push_bounded_shape(pushed_all(prev, n), items.last(), n);
        let r = pushed_all(items, n);
        assert forall|i: int| 0 <= i < r.len() implies #[trigger] r[i] == items[items.len() - 1 - i] by {
            if i >= 1 {
                assert(r[i] == pushed_all(prev, n)[i - 1]);
                assert(prev[prev.len() - 1 - (i - 1)] == items[items.len() - 1 - i]);
            }
        }
    }
}

/// Keeps at most `n` items; the most recently pushed item comes first.
#[derive(Debug)]
pub struct NMax<T> {
    v: VecDeque<T>,
    n: usize,
}

impl<T> View for NMax<T> {
    type V = Seq<T>;

    /// The kept items, newest first.
    closed spec fn view(&self) -> Seq<T> {
        self.v@
    }
}

impl<T> NMax<T> {
    /// How many items are kept at most.
    pub closed spec fn capacity(&self) -> nat {
        self.n as nat
    }

    /// Never more items than the capacity.
    pub closed spec fn wf(&self) -> bool {
        self.v@.len() <= self.n
    }

    pub fn new(n: usize) -> (r: NMax<T>)
        ensures
            r@ == Seq::<T>::empty(),
            r.capacity() == n,
            r.wf(),
    {
        NMax { v: VecDeque::new(), n }
    }

    pub fn push(&mut self, item: T)
        requires
            old(self).wf(),
        ensures
            final(self).wf(),
            final(self).capacity() == old(self).capacity(),
            final(self)@ == push_bounded(old(self)@, item, old(self).capacity()),
    {
        self.v.push_front(item);
        let n = self.n;
        self.v.truncate(n);
    }

    /// Iterates over the kept items, newest first.
    pub fn iter(&self) -> (it: Iter<'_, T>)
        ensures
            it.remaining() == self@.as_ref(),
            IteratorSpec::decrease(&it) is Some,
            IteratorSpec::initial_value_relation(&it, &it),
    {
        self.v.iter()
    }
}

} // verus!
