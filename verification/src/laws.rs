use crate::model::{
    is_clone_of, linear, occupied, popped_back, popped_front, pushed_back, pushed_front, ring_wf,
    truncated, vacant,
};
use crate::power::{lemma_next_power_of_two, reserved, spec_next_power_of_two};
use vstd::arithmetic::power2::is_pow2;
use vstd::prelude::*;

verus! {

/// A sequence laid into a block from slot 0 on, with any number of vacant
/// slots behind it, is a ring in good order, and read front to back it is
/// the sequence again: what goes into a ring buffer from a `Vec` comes out
/// of it as the same `Vec`. Elements that take no storage stay in the `Vec`
/// that they came in.
pub proof fn lemma_vec_round_trip<T>(items: Seq<T>, room: nat)
    ensures
        ring_wf(occupied(items) + vacant::<T>(room), 0, items.len() as int),
        linear(occupied(items) + vacant::<T>(room), 0, items.len() as int) == items,
{
    assert(linear(occupied(items) + vacant::<T>(room), 0, items.len() as int) =~= items);
}

/// A clone holds the sequence that the ring buffer it was made of holds,
/// where a clone of an element is equal to that element.
pub proof fn lemma_clone_is_equal<T: Clone>(items: Seq<T>, copy: Seq<T>)
    requires
        is_clone_of(items, copy),
        forall|a: T, b: T| cloned::<T>(a, b) ==> a == b,
    ensures
        copy == items,
{
    assert(copy =~= items);
}

/// Pushing a value to the back and popping from the back gives the value,
/// and the sequence that was there before.
pub proof fn lemma_push_pop_back<T>(items: Seq<T>, value: T)
    ensures
        popped_back(pushed_back(items, value)) == (Some(value), items),
{
    assert(pushed_back(items, value).drop_last() =~= items);
}

/// Pushing a value to the front and popping from the front gives the value,
/// and the sequence that was there before.
pub proof fn lemma_push_pop_front<T>(items: Seq<T>, value: T)
    ensures
        popped_front(pushed_front(items, value)) == (Some(value), items),
{
    assert(pushed_front(items, value).drop_first() =~= items);
}

/// The sequence after each of `values` has been pushed to the back, the
/// first of them first.
pub open spec fn pushed_each_back<T>(items: Seq<T>, values: Seq<T>) -> Seq<T>
    decreases values.len(),
{
    if values.len() == 0 {
        items
    } else {
        pushed_each_back(pushed_back(items, values.first()), values.drop_first())
    }
}

/// The sequence after each of `values` has been pushed to the front, the
/// first of them first.
pub open spec fn pushed_each_front<T>(items: Seq<T>, values: Seq<T>) -> Seq<T>
    decreases values.len(),
{
    if values.len() == 0 {
        items
    } else {
        pushed_each_front(pushed_front(items, values.first()), values.drop_first())
    }
}

/// Values pushed to the back one by one stand behind what was there, in the
/// order in which they were pushed.
pub proof fn lemma_pushed_each_back<T>(items: Seq<T>, values: Seq<T>)
    ensures
        pushed_each_back(items, values) == items + values,
    decreases values.len(),
{
    if values.len() == 0 {
        assert(items + values =~= items);
    } else {
        lemma_pushed_each_back(pushed_back(items, values.first()), values.drop_first());
        assert(pushed_back(items, values.first()) + values.drop_first() =~= items + values);
    }
}

/// Values pushed to the front one by one stand before what was there, in
/// the reverse of the order in which they were pushed.
pub proof fn lemma_pushed_each_front<T>(items: Seq<T>, values: Seq<T>)
    ensures
        pushed_each_front(items, values) == values.reverse() + items,
    decreases values.len(),
{
    if values.len() == 0 {
        assert(values.reverse() + items =~= items);
    } else {
        lemma_pushed_each_front(pushed_front(items, values.first()), values.drop_first());
        assert(values.drop_first().reverse() + pushed_front(items, values.first())
            =~= values.reverse() + items);
    }
}

/// After room for `n` elements has been reserved the capacity is `n` at
/// least, and it is a power of two where the ring buffer grew or its
/// capacity was a power of two before.
pub proof fn lemma_reserve_growth(cap: int, n: int)
    requires
        is_pow2(cap) || cap < spec_next_power_of_two(n),
    ensures
        reserved(cap, n) >= n,
        is_pow2(reserved(cap, n)),
{
    lemma_next_power_of_two(n);
}

/// Truncating to a length a second time changes nothing.
pub proof fn lemma_truncate_idempotent<T>(items: Seq<T>, len: int)
    ensures
        truncated(truncated(items, len), len) == truncated(items, len),
{
}

} // verus!
