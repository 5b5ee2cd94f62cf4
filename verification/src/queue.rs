//! The queue itself: a `VecDeque` with a verified eviction rule.

use crate::laws::lemma_outcome_is_pushed;
use crate::laws::lemma_push_keeps_monotone;
use crate::model::{agrees, monotone, push_outcome, pushed};
use std::collections::VecDeque;
use vstd::prelude::*;

verus! {

/// A queue that keeps its items monotone under the predicate handed to
/// [`MonotonicQueue::push_by`].
///
/// The queue does not store the direction of the order: it follows from the
/// predicate that the caller passes with each insertion.
pub struct MonotonicQueue<T> {
    dq: VecDeque<T>,
}

impl<T> View for MonotonicQueue<T> {
    type V = Seq<T>;

    /// The items from front to back.
    closed spec fn view(&self) -> Seq<T> {
        self.dq@
    }
}

impl<T> MonotonicQueue<T> {
    /// Creates an empty queue.
    pub fn new() -> (queue: MonotonicQueue<T>)
        ensures
            queue@ == Seq::<T>::empty(),
    {
        MonotonicQueue { dq: VecDeque::new() }
    }

    /// Borrows the front item, the one that has been queued longest, or
    /// returns `None` when the queue is empty.
    pub fn peek(&self) -> (front: Option<&T>)
        ensures
            front == if self@.len() > 0 {
                Some(&self@[0])
            } else {
                None
            },
    {
        if self.dq.len() > 0 {
            Some(&self.dq[0])
        } else {
            None
        }
    }

    /// Removes the front item and returns it, or returns `None` and leaves
    /// the queue as it is when it is empty.
    pub fn pop(&mut self) -> (front: Option<T>)
        ensures
            front == if old(self)@.len() > 0 {
                Some(old(self)@[0])
            } else {
                None
            },
            final(self)@ == if old(self)@.len() > 0 {
                old(self)@.drop_first()
            } else {
                old(self)@
            },
    {
        self.dq.pop_front()
    }

    /// Pushes `item` at the back, after evicting from the back every item
    /// on which `is_less(existing, &item)` answers `true`. Eviction stops at
    /// the first item on which it answers `false`; that item and all in
    /// front of it stay where they are.
    ///
    /// `is_less` must be callable on each queued item paired with `item`.
    /// Where it computes a relation `less`, the queue afterwards is
    /// [`pushed`] of the queue before, and a queue that was [`monotone`]
    /// under `less` still is.
    pub fn push_by<F>(&mut self, item: T, is_less: F) where F: Fn(&T, &T) -> bool
        requires
            forall|i: int|
                0 <= i < old(self)@.len() ==> call_requires(
                    is_less,
                    (&#[trigger] old(self)@[i], &item),
                ),
        ensures
            push_outcome(old(self)@, item, is_less, final(self)@),
            forall|less: spec_fn(T, T) -> bool| #[trigger]
                agrees(is_less, less) ==> {
                    &&& final(self)@ == pushed(old(self)@, item, less)
                    &&& monotone(old(self)@, less) ==> monotone(final(self)@, less)
                },
    {
        let ghost before = self.dq@;
        assert forall|i: int| 0 <= i < before.len() implies call_requires(
            is_less,
            (&#[trigger] before[i], &item),
        ) by {
            assert(before[i] == old(self)@[i]);
        }
        loop
            invariant
                self.dq@.len() <= before.len(),
                self.dq@ == before.take(self.dq@.len() as int),
                forall|i: int|
                    self.dq@.len() <= i < before.len() ==> call_ensures(
                        is_less,
                        (&#[trigger] before[i], &item),
                        true,
                    ),
                forall|i: int|
                    0 <= i < before.len() ==> call_requires(
                        is_less,
                        (&#[trigger] before[i], &item),
                    ),
            ensures
                self.dq@.len() > 0 ==> call_ensures(
                    is_less,
                    (&before[self.dq@.len() - 1], &item),
                    false,
                ),
            decreases self.dq@.len(),
        {
            let n: usize = self.dq.len();
            if n == 0 {
                break ;
            }
            if is_less(&self.dq[n - 1], &item) {
                self.dq.pop_back();
            } else {
                break ;
            }
        }
        self.dq.push_back(item);
        proof {
            assert forall|less: spec_fn(T, T) -> bool| #[trigger]
                agrees(is_less, less) implies {
                &&& self.dq@ == pushed(before, item, less)
                &&& monotone(before, less) ==> monotone(self.dq@, less)
            } by {
                lemma_outcome_is_pushed(before, item, is_less, self.dq@, less);
                if monotone(before, less) {
                    lemma_push_keeps_monotone(before, item, less);
                }
            }
        }
    }
}

} // verus!
