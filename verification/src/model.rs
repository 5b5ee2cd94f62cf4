//! The mathematical model of the queue.
//!
//! A queue is modelled by the sequence of its items from front to back, and
//! an ordering predicate by a two-place relation `less`. Every function here
//! is a specification: the executable queue is stated, and proved, against
//! these.

use vstd::prelude::*;

verus! {

/// The executable predicate `is_less` computes the relation `less`: whatever
/// it returns on a pair is the value of `less` on that pair.
pub open spec fn agrees<T, F: Fn(&T, &T) -> bool>(is_less: F, less: spec_fn(T, T) -> bool) -> bool {
    forall|a: T, b: T, r: bool| #[trigger] call_ensures(is_less, (&a, &b), r) ==> r == less(a, b)
}

/// What is left of `s` once `x` has evicted, from the back, every item that
/// is less than `x`. Eviction stops at the first item that is not.
pub open spec fn kept<T>(s: Seq<T>, x: T, less: spec_fn(T, T) -> bool) -> Seq<T>
    decreases s.len(),
{
    if s.len() > 0 && less(s.last(), x) {
        kept(s.drop_last(), x, less)
    } else {
        s
    }
}

/// The number of items that pushing `x` onto `s` evicts.
pub open spec fn evicted<T>(s: Seq<T>, x: T, less: spec_fn(T, T) -> bool) -> nat {
    (s.len() - kept(s, x, less).len()) as nat
}

/// The queue `s` after `x` has been pushed: the items that `x` does not
/// evict, then `x` itself.
pub open spec fn pushed<T>(s: Seq<T>, x: T, less: spec_fn(T, T) -> bool) -> Seq<T> {
    kept(s, x, less).push(x)
}

/// No item of `s` is less than the item right behind it.
pub open spec fn monotone<T>(s: Seq<T>, less: spec_fn(T, T) -> bool) -> bool {
    forall|i: int| 0 <= i && i + 1 < s.len() ==> !less(#[trigger] s[i], s[i + 1])
}

/// The queue `s` after the items of `xs` have been pushed, first to last.
pub open spec fn pushed_all<T>(s: Seq<T>, xs: Seq<T>, less: spec_fn(T, T) -> bool) -> Seq<T>
    decreases xs.len(),
{
    if xs.len() == 0 {
        s
    } else {
        pushed(pushed_all(s, xs.drop_last(), less), xs.last(), less)
    }
}

/// The number of evictions, all pushes together, while the items of `xs` are
/// pushed onto `s`.
pub open spec fn evicted_all<T>(s: Seq<T>, xs: Seq<T>, less: spec_fn(T, T) -> bool) -> nat
    decreases xs.len(),
{
    if xs.len() == 0 {
        0
    } else {
        evicted_all(s, xs.drop_last(), less) + evicted(
            pushed_all(s, xs.drop_last(), less),
            xs.last(),
            less,
        )
    }
}

/// The relation `less` carried over from the items of `xs` to their
/// positions in `xs`.
pub open spec fn by_position<T>(xs: Seq<T>, less: spec_fn(T, T) -> bool) -> spec_fn(int, int) -> bool {
    |i: int, j: int| less(xs[i], xs[j])
}

/// The positions in `xs` of the items that are queued, front to back, once
/// the items of `xs` have been pushed onto an empty queue. A position names
/// one push, so two equal items stay apart.
pub open spec fn survivors<T>(xs: Seq<T>, less: spec_fn(T, T) -> bool) -> Seq<int>
    decreases xs.len(),
{
    if xs.len() == 0 {
        Seq::empty()
    } else {
        pushed(survivors(xs.drop_last(), less), xs.len() - 1, by_position(xs, less))
    }
}

/// One push as the executable queue performs it, told without assuming that
/// `is_less` computes a relation: `after` is a front part of `before`
/// followed by `item`; on every item that left, `is_less` answered `true`;
/// on the last item that stayed, if there is one, it answered `false`.
pub open spec fn push_outcome<T, F: Fn(&T, &T) -> bool>(
    before: Seq<T>,
    item: T,
    is_less: F,
    after: Seq<T>,
) -> bool {
    let stay = after.len() - 1;
    &&& 0 <= stay <= before.len()
    &&& after == before.take(stay).push(item)
    &&& forall|i: int|
        stay <= i < before.len() ==> call_ensures(is_less, (&#[trigger] before[i], &item), true)
    &&& stay > 0 ==> call_ensures(is_less, (&before[stay - 1], &item), false)
}

} // verus!
