//! What holds of the queue, proved over the model.

use crate::model::{
    agrees, by_position, evicted, evicted_all, kept, monotone, push_outcome, pushed, pushed_all,
    survivors,
};
use vstd::prelude::*;

verus! {

/// What `x` leaves of `s` is a front part of `s`; every item behind it is
/// less than `x`, and its own last item, if it has one, is not.
pub proof fn lemma_kept_is_front<T>(s: Seq<T>, x: T, less: spec_fn(T, T) -> bool)
    ensures
        kept(s, x, less).len() <= s.len(),
        kept(s, x, less) == s.take(kept(s, x, less).len() as int),
        forall|i: int| kept(s, x, less).len() <= i < s.len() ==> less(#[trigger] s[i], x),
        kept(s, x, less).len() > 0 ==> !less(kept(s, x, less).last(), x),
    decreases s.len(),
{
    if s.len() > 0 && less(s.last(), x) {
        let front = s.drop_last();
        lemma_kept_is_front(front, x, less);
        let stay = kept(s, x, less).len();
        assert(front.take(stay as int) == s.take(stay as int));
        assert forall|i: int| stay <= i < s.len() implies less(#[trigger] s[i], x) by {
            if i < front.len() {
                assert(front[i] == s[i]);
            }
        }
    } else {
        assert(s.take(s.len() as int) == s);
    }
}

/// A front part of `s` behind which every item is less than `x`, and whose
/// last item is not, is what `x` leaves of `s`.
pub proof fn lemma_front_is_kept<T>(s: Seq<T>, x: T, less: spec_fn(T, T) -> bool, stay: int)
    requires
        0 <= stay <= s.len(),
        forall|i: int| stay <= i < s.len() ==> less(#[trigger] s[i], x),
        stay > 0 ==> !less(s[stay - 1], x),
    ensures
        kept(s, x, less) == s.take(stay),
    decreases s.len() - stay,
{
    if stay < s.len() {
        assert(less(s[s.len() - 1], x));
        lemma_front_is_kept(s.drop_last(), x, less, stay);
        assert(s.drop_last().take(stay) == s.take(stay));
    } else {
        assert(s.take(stay) == s);
    }
}

/// A push by a predicate that computes `less` gives the queue that the
/// model names.
pub proof fn lemma_outcome_is_pushed<T, F: Fn(&T, &T) -> bool>(
    before: Seq<T>,
    item: T,
    is_less: F,
    after: Seq<T>,
    less: spec_fn(T, T) -> bool,
)
    requires
        push_outcome(before, item, is_less, after),
        agrees(is_less, less),
    ensures
        after == pushed(before, item, less),
{
    let stay = after.len() - 1;
    assert forall|i: int| stay <= i < before.len() implies less(#[trigger] before[i], item) by {
        assert(call_ensures(is_less, (&before[i], &item), true));
    }
    lemma_front_is_kept(before, item, less, stay);
}

/// A push keeps a monotone queue monotone.
pub proof fn lemma_push_keeps_monotone<T>(s: Seq<T>, x: T, less: spec_fn(T, T) -> bool)
    requires
        monotone(s, less),
    ensures
        monotone(pushed(s, x, less), less),
{
    lemma_kept_is_front(s, x, less);
    let k = kept(s, x, less);
    let p = pushed(s, x, less);
    assert forall|i: int| 0 <= i && i + 1 < p.len() implies !less(#[trigger] p[i], p[i + 1]) by {
        if i + 1 < k.len() {
            assert(p[i] == s[i]);
            assert(p[i + 1] == s[i + 1]);
        } else {
            assert(p[i] == k.last());
            assert(p[i + 1] == x);
        }
    }
}

/// Pushing any number of items, all by one relation, keeps a monotone queue
/// monotone. A queue that starts empty is therefore monotone after every
/// push.
pub proof fn lemma_pushes_keep_monotone<T>(s: Seq<T>, xs: Seq<T>, less: spec_fn(T, T) -> bool)
    requires
        monotone(s, less),
    ensures
        monotone(pushed_all(s, xs, less), less),
    decreases xs.len(),
{
    if xs.len() > 0 {
        lemma_pushes_keep_monotone(s, xs.drop_last(), less);
        lemma_push_keeps_monotone(pushed_all(s, xs.drop_last(), less), xs.last(), less);
    }
}

/// One push changes the length by one less the number of items it evicts.
pub proof fn lemma_push_len<T>(s: Seq<T>, x: T, less: spec_fn(T, T) -> bool)
    ensures
        evicted(s, x, less) <= s.len(),
        pushed(s, x, less).len() == s.len() - evicted(s, x, less) + 1,
{
    lemma_kept_is_front(s, x, less);
}

/// Every item is accounted for: those queued at the start and those pushed
/// are, at the end, either queued or evicted.
pub proof fn lemma_evictions_accounted<T>(s: Seq<T>, xs: Seq<T>, less: spec_fn(T, T) -> bool)
    ensures
        evicted_all(s, xs, less) + pushed_all(s, xs, less).len() == s.len() + xs.len(),
    decreases xs.len(),
{
    if xs.len() > 0 {
        lemma_evictions_accounted(s, xs.drop_last(), less);
        lemma_push_len(pushed_all(s, xs.drop_last(), less), xs.last(), less);
    }
}

/// On a queue that starts empty, the evictions of `n` pushes number `n` less
/// the final length, and so never more than that.
pub proof fn lemma_evictions_bounded<T>(xs: Seq<T>, less: spec_fn(T, T) -> bool)
    ensures
        pushed_all(Seq::empty(), xs, less).len() <= xs.len(),
        evicted_all(Seq::empty(), xs, less) == xs.len() - pushed_all(Seq::empty(), xs, less).len(),
{
    lemma_evictions_accounted(Seq::empty(), xs, less);
}

/// Under a strict relation, one under which no item is less than itself,
/// pushing an item equal to the back item evicts nothing: both stay, the new
/// one behind the old.
pub proof fn lemma_equal_back_stays<T>(s: Seq<T>, x: T, less: spec_fn(T, T) -> bool)
    requires
        s.len() > 0,
        x == s.last(),
        forall|a: T| !#[trigger] less(a, a),
    ensures
        evicted(s, x, less) == 0,
        pushed(s, x, less) == s.push(x),
{
}

/// A push leaves the front where it is unless it evicts the whole queue:
/// the items keep the order in which they came, so the front is always the
/// one that has been queued longest.
pub proof fn lemma_front_stays<T>(s: Seq<T>, x: T, less: spec_fn(T, T) -> bool)
    ensures
        evicted(s, x, less) < s.len() ==> pushed(s, x, less)[0] == s[0],
        evicted(s, x, less) == s.len() ==> pushed(s, x, less) == seq![x],
{
    lemma_kept_is_front(s, x, less);
    if kept(s, x, less).len() == 0 {
        assert(pushed(s, x, less) == seq![x]);
    }
}

/// The survivors are positions of `xs` in rising order: no push is queued
/// twice, and the front is the earliest push still queued.
pub proof fn lemma_survivors_rise<T>(xs: Seq<T>, less: spec_fn(T, T) -> bool)
    ensures
        survivors(xs, less).len() <= xs.len(),
        forall|a: int|
            0 <= a < survivors(xs, less).len() ==> 0 <= #[trigger] survivors(xs, less)[a]
                < xs.len(),
        forall|a: int, b: int|
            0 <= a < b < survivors(xs, less).len() ==> #[trigger] survivors(xs, less)[a]
                < #[trigger] survivors(xs, less)[b],
    decreases xs.len(),
{
    if xs.len() > 0 {
        let prev = survivors(xs.drop_last(), less);
        lemma_survivors_rise(xs.drop_last(), less);
        lemma_kept_is_front(prev, xs.len() - 1, by_position(xs, less));
    }
}

/// The queue holds the items that the survivors name, in their order.
pub proof fn lemma_survivors_are_queued<T>(xs: Seq<T>, less: spec_fn(T, T) -> bool)
    ensures
        pushed_all(Seq::empty(), xs, less) == survivors(xs, less).map_values(|i: int| xs[i]),
    decreases xs.len(),
{
    let queue = pushed_all(Seq::empty(), xs, less);
    let named = survivors(xs, less).map_values(|i: int| xs[i]);
    if xs.len() == 0 {
        assert(queue == named);
    } else {
        let init = xs.drop_last();
        let x = xs.last();
        let last = xs.len() - 1;
        let prev = survivors(init, less);
        let prev_queue = pushed_all(Seq::empty(), init, less);
        lemma_survivors_are_queued(init, less);
        lemma_survivors_rise(init, less);
        assert(prev_queue.len() == prev.len());
        assert forall|a: int| 0 <= a < prev.len() implies prev_queue[a] == xs[#[trigger] prev[a]] by {
            assert(prev_queue[a] == init[prev[a]]);
        }
        lemma_kept_is_front(prev, last, by_position(xs, less));
        let stay = kept(prev, last, by_position(xs, less)).len() as int;
        assert forall|a: int| stay <= a < prev_queue.len() implies less(
            #[trigger] prev_queue[a],
            x,
        ) by {
            assert(by_position(xs, less)(prev[a], last));
        }
        if stay > 0 {
            assert(kept(prev, last, by_position(xs, less)).last() == prev[stay - 1]);
            assert(!by_position(xs, less)(prev[stay - 1], last));
        }
        lemma_front_is_kept(prev_queue, x, less, stay);
        assert(queue == named);
    }
}

/// A push that is no longer queued is never queued again: whichever of the
/// first `early` pushes is queued after `late` pushes was queued after
/// `early` pushes too. So no push is evicted more than once.
pub proof fn lemma_evicted_stays_out<T>(
    xs: Seq<T>,
    less: spec_fn(T, T) -> bool,
    early: int,
    late: int,
    i: int,
)
    requires
        0 <= early <= late <= xs.len(),
        i < early,
        survivors(xs.take(late), less).contains(i),
    ensures
        survivors(xs.take(early), less).contains(i),
    decreases late - early,
{
    if early < late {
        let now = xs.take(late);
        let prev = survivors(now.drop_last(), less);
        assert(now.drop_last() == xs.take(late - 1));
        lemma_kept_is_front(prev, late - 1, by_position(now, less));
        let stay = kept(prev, late - 1, by_position(now, less));
        let a = choose|a: int| 0 <= a < survivors(now, less).len() && survivors(now, less)[a] == i;
        assert(a < stay.len());
        assert(prev[a] == i);
        lemma_evicted_stays_out(xs, less, early, late - 1, i);
    } else {
        assert(xs.take(early) == xs.take(late));
    }
}

} // verus!
