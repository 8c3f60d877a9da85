use vstd::layout::size_of;
use vstd::prelude::*;

verus! {

/// Whether an element of type `T` takes no storage. Such elements lie in no
/// block: a ring buffer of them only counts them.
pub open spec fn is_weightless<T>() -> bool {
    size_of::<T>() == 0
}

/// Whether the size in bytes of a block of `capacity` elements of type `T`
/// can be counted.
pub open spec fn representable<T>(capacity: int) -> bool {
    capacity * size_of::<T>() <= usize::MAX
}

/// A block of fewer elements can be counted where one of more can.
pub proof fn lemma_representable_smaller<T>(small: int, large: int)
    requires
        0 <= small <= large,
        representable::<T>(large),
    ensures
        representable::<T>(small),
{
    assert(small * size_of::<T>() <= large * size_of::<T>()) by (nonlinear_arith)
        requires
            0 <= small <= large,
            0 <= size_of::<T>(),
    ;
}

/// Where elements take storage, a block that can be counted in bytes has a
/// number of slots that fits in `usize`.
pub proof fn lemma_representable_count<T>(capacity: int)
    requires
        0 <= capacity,
        representable::<T>(capacity),
        !is_weightless::<T>(),
    ensures
        capacity <= usize::MAX,
{
    assert(capacity <= capacity * size_of::<T>()) by (nonlinear_arith)
        requires
            0 <= capacity,
            1 <= size_of::<T>(),
    ;
}

/// Physical slot that holds the element at logical position `index` of a ring
/// that starts at slot `lo` of a block of `cap` slots.
pub open spec fn slot_of(lo: int, cap: int, index: int) -> int {
    if lo + index >= cap {
        lo + index - cap
    } else {
        lo + index
    }
}

/// Whether physical slot `p` lies inside the circular range of `len` slots
/// that starts at `lo`.
pub open spec fn is_live(lo: int, len: int, cap: int, p: int) -> bool {
    if lo + len <= cap {
        lo <= p < lo + len
    } else {
        lo <= p < cap || 0 <= p < lo + len - cap
    }
}

/// The layout invariant of a ring over `slots`: the bounds on `lo` and `len`,
/// and that exactly the live slots are occupied.
pub open spec fn ring_wf<T>(slots: Seq<Option<T>>, lo: int, len: int) -> bool {
    let cap = slots.len() as int;
    &&& 0 <= len <= cap
    &&& 0 <= lo
    &&& if cap == 0 {
        lo == 0
    } else {
        lo < cap
    }
    &&& forall|p: int|
        0 <= p < cap ==> ((#[trigger] slots[p]).is_some() <==> is_live(lo, len, cap, p))
}

/// The logical sequence that a ring over `slots` holds, front to back.
pub open spec fn linear<T>(slots: Seq<Option<T>>, lo: int, len: int) -> Seq<T> {
    Seq::new(len as nat, |i: int| slots[slot_of(lo, slots.len() as int, i)].unwrap())
}

/// The elements of a run of occupied slots.
pub open spec fn held<T>(slots: Seq<Option<T>>) -> Seq<T> {
    Seq::new(slots.len(), |i: int| slots[i].unwrap())
}

/// Whether every slot of a run is occupied.
pub open spec fn all_held<T>(slots: Seq<Option<T>>) -> bool {
    forall|i: int| 0 <= i < slots.len() ==> (#[trigger] slots[i]).is_some()
}

/// Whether every slot of a run is vacant.
pub open spec fn all_vacant<T>(slots: Seq<Option<T>>) -> bool {
    forall|i: int| 0 <= i < slots.len() ==> (#[trigger] slots[i]).is_none()
}

/// A run of `n` vacant slots.
pub open spec fn vacant<T>(n: nat) -> Seq<Option<T>> {
    Seq::new(n, |i: int| None::<T>)
}

/// A run of occupied slots that holds `items`.
pub open spec fn occupied<T>(items: Seq<T>) -> Seq<Option<T>> {
    Seq::new(items.len(), |i: int| Some(items[i]))
}

/// `slots` after the elements `from..to` of the run of slots at `src` have
/// moved to the same positions of the run at `dst`: a slot of the source
/// that the destination does not cover is left vacant.
pub open spec fn shifted_part<T>(
    slots: Seq<Option<T>>,
    src: int,
    dst: int,
    from: int,
    to: int,
) -> Seq<Option<T>> {
    Seq::new(
        slots.len(),
        |p: int|
            if dst + from <= p < dst + to {
                slots[p - dst + src]
            } else if src + from <= p < src + to {
                None
            } else {
                slots[p]
            },
    )
}

/// `slots` after the run of `count` slots at `src` has moved to `dst`.
pub open spec fn shifted<T>(slots: Seq<Option<T>>, src: int, dst: int, count: int) -> Seq<
    Option<T>,
> {
    shifted_part(slots, src, dst, 0, count)
}

/// `slots` with the run of `count` slots at `at` left vacant.
pub open spec fn vacated<T>(slots: Seq<Option<T>>, at: int, count: int) -> Seq<Option<T>> {
    Seq::new(
        slots.len(),
        |p: int|
            if at <= p < at + count {
                None
            } else {
                slots[p]
            },
    )
}

/// `slots` with `run` laid over the slots from `at` on.
pub open spec fn overlaid<T>(slots: Seq<Option<T>>, at: int, run: Seq<Option<T>>) -> Seq<
    Option<T>,
> {
    Seq::new(
        slots.len(),
        |p: int|
            if at <= p < at + run.len() {
                run[p - at]
            } else {
                slots[p]
            },
    )
}

/// Whether the live range crosses from the last slot of the block back to
/// slot 0.
pub open spec fn wraps(lo: int, len: int, cap: int) -> bool {
    lo > cap - len
}

/// Length of the first span: the run of live slots that starts at `lo`.
pub open spec fn head_len(lo: int, len: int, cap: int) -> int {
    if wraps(lo, len, cap) {
        cap - lo
    } else {
        len
    }
}

/// Length of the second span: the run of live slots that starts at slot 0
/// where the live range wraps.
pub open spec fn tail_len(lo: int, len: int, cap: int) -> int {
    len - head_len(lo, len, cap)
}

/// Capacity that a full ring of `len` elements grows to.
pub open spec fn grown(len: int) -> int {
    if len < 1 {
        2
    } else {
        2 * len
    }
}

/// Capacity of a ring of capacity `cap` after it has grown, each time from
/// full, until it holds `need` elements.
pub open spec fn grown_until(cap: int, need: int) -> int
    decreases (if need > cap { need - cap } else { 0 }),
{
    if cap >= need {
        cap
    } else {
        grown_until(grown(cap), need)
    }
}

/// Whether `copy` holds, position by position, a clone of what `items`
/// holds.
pub open spec fn is_clone_of<T: Clone>(items: Seq<T>, copy: Seq<T>) -> bool {
    &&& copy.len() == items.len()
    &&& forall|i: int| 0 <= i < items.len() ==> cloned::<T>(#[trigger] items[i], copy[i])
}

/// Number of positions that both sequences have.
pub open spec fn shared_len<T>(a: Seq<T>, b: Seq<T>) -> int {
    if a.len() <= b.len() {
        a.len() as int
    } else {
        b.len() as int
    }
}

/// Slot that the next element pushed to the front goes to.
pub open spec fn front_slot(lo: int, cap: int) -> int {
    if lo == 0 {
        cap - 1
    } else {
        lo - 1
    }
}

/// The sequence after `value` has been pushed to the back.
pub open spec fn pushed_back<T>(items: Seq<T>, value: T) -> Seq<T> {
    items.push(value)
}

/// The sequence after `value` has been pushed to the front.
pub open spec fn pushed_front<T>(items: Seq<T>, value: T) -> Seq<T> {
    seq![value] + items
}

/// What popping from the back returns, and the sequence that it leaves.
pub open spec fn popped_back<T>(items: Seq<T>) -> (Option<T>, Seq<T>) {
    if items.len() == 0 {
        (None, items)
    } else {
        (Some(items.last()), items.drop_last())
    }
}

/// What popping from the front returns, and the sequence that it leaves.
pub open spec fn popped_front<T>(items: Seq<T>) -> (Option<T>, Seq<T>) {
    if items.len() == 0 {
        (None, items)
    } else {
        (Some(items.first()), items.drop_first())
    }
}

/// The sequence cut down to at most `target` elements.
pub open spec fn truncated<T>(items: Seq<T>, target: int) -> Seq<T> {
    if 0 <= target < items.len() {
        items.subrange(0, target)
    } else {
        items
    }
}

/// The sequence with the elements at `i` and `j` exchanged.
pub open spec fn swapped<T>(items: Seq<T>, i: int, j: int) -> Seq<T> {
    items.update(i, items[j]).update(j, items[i])
}

/// Under the layout invariant the two spans, the first followed by the
/// second, hold the logical sequence.
pub proof fn lemma_spans_cover<T>(slots: Seq<Option<T>>, lo: int, len: int)
    requires
        ring_wf(slots, lo, len),
    ensures
        0 <= head_len(lo, len, slots.len() as int) <= len,
        lo + head_len(lo, len, slots.len() as int) <= slots.len(),
        0 <= tail_len(lo, len, slots.len() as int) <= lo,
        wraps(lo, len, slots.len() as int) ==> lo + head_len(lo, len, slots.len() as int)
            == slots.len(),
        all_held(slots.subrange(lo, lo + head_len(lo, len, slots.len() as int))),
        all_held(slots.subrange(0, tail_len(lo, len, slots.len() as int))),
        linear(slots, lo, len) == held(
            slots.subrange(lo, lo + head_len(lo, len, slots.len() as int)),
        ) + held(slots.subrange(0, tail_len(lo, len, slots.len() as int))),
{
    let cap = slots.len() as int;
    let n1 = head_len(lo, len, cap);
    let n2 = tail_len(lo, len, cap);
    let first = slots.subrange(lo, lo + n1);
    let second = slots.subrange(0, n2);
    assert forall|i: int| 0 <= i < first.len() implies (#[trigger] first[i]).is_some() by {
        assert(slots[lo + i].is_some());
    }
    assert forall|i: int| 0 <= i < second.len() implies (#[trigger] second[i]).is_some() by {
        assert(slots[i].is_some());
    }
    assert(linear(slots, lo, len) =~= held(first) + held(second));
}

/// The physical slot of a logical position is that position counted on
/// from `lo`, modulo the capacity.
pub proof fn lemma_slot_of_is_modular(lo: int, cap: int, index: int)
    requires
        0 <= lo < cap,
        0 <= index <= cap,
    ensures
        slot_of(lo, cap, index) == (lo + index) % cap,
{
    if lo + index >= cap {
        vstd::arithmetic::div_mod::lemma_fundamental_div_mod_converse(
            lo + index,
            cap,
            1,
            lo + index - cap,
        );
    } else {
        vstd::arithmetic::div_mod::lemma_small_mod((lo + index) as nat, cap as nat);
    }
}

/// Growing until `need + 1` elements fit is growing until `need` fit, and
/// once more where that is full then.
pub proof fn lemma_grown_until_step(cap: int, need: int)
    requires
        0 <= cap,
        0 <= need,
    ensures
        grown_until(cap, need + 1) == if grown_until(cap, need) >= need + 1 {
            grown_until(cap, need)
        } else {
            grown(grown_until(cap, need))
        },
        grown_until(cap, need) >= need,
        grown_until(cap, need) >= cap,
        need >= cap ==> grown_until(cap, need) <= grown(need),
    decreases (if need + 1 > cap { need + 1 - cap } else { 0 }),
{
    if cap < need {
        lemma_grown_until_step(grown(cap), need);
    } else if cap == need {
        assert(grown_until(grown(cap), need + 1) == grown(cap));
    }
}

/// Growing reaches the need, and where it starts below the need it ends at
/// twice the need at most.
pub proof fn lemma_grown_until_bound(cap: int, need: int)
    requires
        0 <= cap,
        0 <= need,
    ensures
        grown_until(cap, need) >= cap,
        grown_until(cap, need) >= need,
        cap < need ==> grown_until(cap, need) <= 2 * need,
    decreases (if need > cap { need - cap } else { 0 }),
{
    if cap < need {
        lemma_grown_until_bound(grown(cap), need);
    }
}

/// Growing until `need` elements fit gives a block that can be counted,
/// where the block one starts from can be and one of twice the need can.
pub proof fn lemma_growth_representable<T>(cap: int, need: int, limit: int)
    requires
        0 <= cap <= usize::MAX,
        0 <= need,
        2 * need <= limit,
        representable::<T>(cap),
        representable::<T>(limit),
        !is_weightless::<T>(),
    ensures
        representable::<T>(grown_until(cap, need)),
        grown_until(cap, need) <= usize::MAX,
{
    lemma_grown_until_bound(cap, need);
    if cap < need {
        lemma_representable_smaller::<T>(grown_until(cap, need), limit);
        lemma_representable_count::<T>(limit);
    }
}

} // verus!
