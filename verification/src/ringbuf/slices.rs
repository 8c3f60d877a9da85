use super::{RingBuf, Span};
use crate::model::{
    all_held, head_len, held, is_weightless, lemma_spans_cover, linear, overlaid, ring_wf,
    tail_len,
};
use vstd::prelude::*;

verus! {

/// A run of elements of a ring buffer: the elements of a run of occupied
/// slots, or, where elements take no storage, elements that lie in no slot.
pub struct Run<'a, T> {
    /// The occupied slots; none where the elements take no storage.
    pub slots: &'a [Option<T>],
    /// The elements that lie in no slot; none where they take storage.
    pub items: &'a [T],
}

impl<'a, T> Run<'a, T> {
    /// Every slot is occupied, and the elements lie in slots or in none.
    pub open spec fn wf(&self) -> bool {
        &&& all_held(self.slots@)
        &&& self.slots@.len() == 0 || self.items@.len() == 0
    }

    /// The elements of the run, in their order.
    pub open spec fn view(&self) -> Seq<T> {
        held(self.slots@) + self.items@
    }

    /// Number of elements.
    pub fn len(&self) -> (n: usize)
        requires
            self.wf(),
        ensures
            n == self@.len(),
    {
        self.slots.len() + self.items.len()
    }

    /// The element at position `index` of the run.
    pub fn get(&self, index: usize) -> (item: &'a T)
        requires
            self.wf(),
            index < self@.len(),
        ensures
            *item == self@[index as int],
    {
        let n = self.slots.len();
        if index < n {
            self.slots[index].as_ref().unwrap()
        } else {
            &self.items[index - n]
        }
    }
}

/// A run of elements of a ring buffer, for writing.
pub struct RunMut<'a, T> {
    /// The occupied slots; none where the elements take no storage.
    pub slots: &'a mut [Option<T>],
    /// The elements that lie in no slot; none where they take storage.
    pub items: &'a mut [T],
}

impl<'a, T> RunMut<'a, T> {
    /// Every slot is occupied, and the elements lie in slots or in none.
    pub open spec fn wf(&self) -> bool {
        &&& all_held(self.slots@)
        &&& self.slots@.len() == 0 || self.items@.len() == 0
    }

    /// The elements of the run as they are now, in their order.
    pub open spec fn view(&self) -> Seq<T> {
        held(self.slots@) + self.items@
    }

    /// Number of elements.
    pub fn len(&self) -> (n: usize)
        requires
            self.wf(),
        ensures
            n == self@.len(),
    {
        self.slots.len() + self.items.len()
    }

    /// The element at position `index` of the run, for writing.
    pub fn get_mut(&mut self, index: usize) -> (item: &mut T)
        requires
            old(self).wf(),
            index < old(self)@.len(),
        ensures
            *item == old(self)@[index as int],
            final(self).wf(),
            final(self)@ == old(self)@.update(index as int, *final(item)),
            final(self).slots@.len() == old(self).slots@.len(),
            final(self).items@.len() == old(self).items@.len(),
            final(final(self).slots)@ == final(old(self).slots)@,
            final(final(self).items)@ == final(old(self).items)@,
    {
        let n = self.slots.len();
        if index < n {
            assert forall|v: T|
                #[trigger] held(self.slots@.update(index as int, Some(v))) + self.items@
                    == self@.update(index as int, v) by {
                assert(held(self.slots@.update(index as int, Some(v))) + self.items@
                    =~= self@.update(index as int, v));
            }
            let slot = &mut self.slots[index];
            slot.as_mut().unwrap()
        } else {
            assert forall|v: T|
                held(self.slots@) + #[trigger] self.items@.update(index - n, v) == self@.update(
                    index as int,
                    v,
                ) by {
                assert(held(self.slots@) + self.items@.update(index - n, v) =~= self@.update(
                    index as int,
                    v,
                ));
            }
            &mut self.items[index - n]
        }
    }
}

/// Laying occupied runs of the spans' lengths over the two spans keeps the
/// layout, and the ring then holds the elements of the two runs.
proof fn lemma_relaid<T>(slots: Seq<Option<T>>, lo: int, len: int)
    requires
        ring_wf(slots, lo, len),
    ensures
        forall|head: Seq<Option<T>>, tail: Seq<Option<T>>|
            head.len() == head_len(lo, len, slots.len() as int) && tail.len() == tail_len(
                lo,
                len,
                slots.len() as int,
            ) && all_held(head) && all_held(tail) ==> ring_wf(
                #[trigger] overlaid(overlaid(slots, lo, head), 0, tail),
                lo,
                len,
            ) && linear(overlaid(overlaid(slots, lo, head), 0, tail), lo, len) == held(head)
                + held(tail),
{
    let cap = slots.len() as int;
    assert forall|head: Seq<Option<T>>, tail: Seq<Option<T>>|
        head.len() == head_len(lo, len, cap) && tail.len() == tail_len(lo, len, cap) && all_held(
            head,
        ) && all_held(tail) implies ring_wf(
        #[trigger] overlaid(overlaid(slots, lo, head), 0, tail),
        lo,
        len,
    ) && linear(overlaid(overlaid(slots, lo, head), 0, tail), lo, len) == held(head) + held(
        tail,
    ) by {
        lemma_spans_cover(slots, lo, len);
        let after = overlaid(overlaid(slots, lo, head), 0, tail);
        assert forall|p: int| 0 <= p < after.len() implies ((#[trigger] after[p]).is_some()
            <==> slots[p].is_some()) by {
            if 0 <= p < tail.len() {
                assert(tail[p].is_some());
            } else if lo <= p < lo + head.len() {
                assert(head[p - lo].is_some());
            }
        }
        lemma_spans_cover(after, lo, len);
        assert(after.subrange(lo, lo + head.len()) =~= head);
        assert(after.subrange(0, tail.len() as int) =~= tail);
    }
}

impl<T> RingBuf<T> {
    /// The two physical ranges that hold the elements: the first starts at
    /// `lo`, the second at slot 0 and is empty unless the live range wraps.
    /// Together they are as long as the ring buffer, and the second ends
    /// before the first starts.
    pub fn get_spans(&self) -> (spans: (Span, Span))
        requires
            self.wf(),
        ensures
            spans.0.start == self.spec_lo(),
            spans.0.len == self.spec_head_len(),
            spans.1.start == 0,
            spans.1.len == self.spec_tail_len(),
            spans.0.len + spans.1.len == self@.len(),
            spans.0.start + spans.0.len <= self.spec_capacity(),
            spans.1.len <= spans.0.start,
    {
        proof {
            if !is_weightless::<T>() {
                lemma_spans_cover(self.slots(), self.lo as int, self.len as int);
            }
        }
        let cap = self.capacity();
        if self.lo > cap - self.len {
            let len1 = cap - self.lo;
            (Span { start: self.lo, len: len1 }, Span { start: 0, len: self.len - len1 })
        } else {
            (Span { start: self.lo, len: self.len }, Span { start: 0, len: 0 })
        }
    }

    /// Length of the first span.
    pub open spec fn spec_head_len(&self) -> int {
        head_len(self.spec_lo() as int, self@.len() as int, self.spec_capacity() as int)
    }

    /// Length of the second span.
    pub open spec fn spec_tail_len(&self) -> int {
        tail_len(self.spec_lo() as int, self@.len() as int, self.spec_capacity() as int)
    }

    /// The slots of the first span; none where the elements take no storage.
    pub open spec fn spec_head(&self) -> Seq<Option<T>> {
        if is_weightless::<T>() {
            Seq::empty()
        } else {
            self.slots().subrange(self.spec_lo() as int, self.spec_lo() + self.spec_head_len())
        }
    }

    /// The slots of the second span; none where the elements take no
    /// storage.
    pub open spec fn spec_tail(&self) -> Seq<Option<T>> {
        if is_weightless::<T>() {
            Seq::empty()
        } else {
            self.slots().subrange(0, self.spec_tail_len())
        }
    }

    /// The elements as two runs: those of the first span, then those of the
    /// second. Elements that take no storage are all in the first run.
    pub fn as_slices(&self) -> (slices: (Run<'_, T>, Run<'_, T>))
        requires
            self.wf(),
        ensures
            slices.0.slots@ == self.spec_head(),
            slices.0.items@ == self.weightless(),
            slices.1.slots@ == self.spec_tail(),
            slices.1.items@.len() == 0,
            slices.0.wf(),
            slices.1.wf(),
            slices.0@.len() == self.spec_head_len(),
            slices.1@.len() == self.spec_tail_len(),
            slices.0@ + slices.1@ == self@,
    {
        let (first, second) = self.get_spans();
        let weightless = self.weightless.as_slice();
        let (all, none) = weightless.split_at(weightless.len());
        let slots = self.block.as_slice();
        assert(all@ =~= self.weightless());
        if core::mem::size_of::<T>() == 0 {
            let (head, tail) = slots.split_at(0);
            let slices = (Run { slots: head, items: all }, Run { slots: tail, items: none });
            assert(slices.0@ + slices.1@ =~= self@);
            slices
        } else {
            proof {
                lemma_spans_cover(self.slots(), self.lo as int, self.len as int);
            }
            let (low, high) = slots.split_at(first.start);
            let (head, _) = high.split_at(first.len);
            let (tail, _) = low.split_at(second.len);
            assert(head@ =~= self.spec_head());
            assert(tail@ =~= self.spec_tail());
            let slices = (Run { slots: head, items: all }, Run { slots: tail, items: none });
            assert(slices.0@ + slices.1@ =~= self@);
            slices
        }
    }

    /// The elements as two runs, for writing. The ring buffer is as the runs
    /// are left: it keeps its layout while every slot of them stays
    /// occupied.
    pub fn as_mut_slices(&mut self) -> (slices: (RunMut<'_, T>, RunMut<'_, T>))
        requires
            old(self).wf(),
        ensures
            slices.0.slots@ == old(self).spec_head(),
            slices.0.items@ == old(self).weightless(),
            slices.1.slots@ == old(self).spec_tail(),
            slices.1.items@.len() == 0,
            slices.0.wf(),
            slices.1.wf(),
            slices.0@.len() == old(self).spec_head_len(),
            slices.1@.len() == old(self).spec_tail_len(),
            slices.0@ + slices.1@ == old(self)@,
            final(self).spec_lo() == old(self).spec_lo(),
            final(self).spec_len() == old(self).spec_len(),
            final(slices.0.slots)@.len() == slices.0.slots@.len() && final(slices.1.slots)@.len()
                == slices.1.slots@.len() && final(slices.0.items)@.len() == slices.0.items@.len()
                && final(slices.1.items)@.len() == slices.1.items@.len() ==> final(self).slots()
                == overlaid(
                overlaid(old(self).slots(), old(self).spec_lo() as int, final(slices.0.slots)@),
                0,
                final(slices.1.slots)@,
            ) && final(self).weightless() == final(slices.0.items)@,
            final(slices.0.slots)@.len() == slices.0.slots@.len() && final(slices.1.slots)@.len()
                == slices.1.slots@.len() && final(slices.0.items)@.len() == slices.0.items@.len()
                && final(slices.1.items)@.len() == slices.1.items@.len() && all_held(
                final(slices.0.slots)@,
            ) && all_held(final(slices.1.slots)@) ==> final(self).wf() && final(self)@ == held(
                final(slices.0.slots)@,
            ) + final(slices.0.items)@ + held(final(slices.1.slots)@) + final(slices.1.items)@,
    {
        let (first, second) = self.get_spans();
        proof {
            if !is_weightless::<T>() {
                lemma_spans_cover(self.slots(), self.lo as int, self.len as int);
                lemma_relaid(self.slots(), self.lo as int, self.len as int);
            }
        }
        let weightless = self.weightless.as_mut_slice();
        let n = weightless.len();
        let (all, none) = weightless.split_at_mut(n);
        let slots = self.block.as_mut_slice();
        assert(all@ =~= old(self).weightless());
        if core::mem::size_of::<T>() == 0 {
            let (head, tail) = slots.split_at_mut(0);
            let slices = (RunMut { slots: head, items: all }, RunMut { slots: tail, items: none });
            assert(slices.0@ + slices.1@ =~= old(self)@);
            slices
        } else {
            let (low, high) = slots.split_at_mut(first.start);
            let (head, _rest) = high.split_at_mut(first.len);
            let (tail, _gap) = low.split_at_mut(second.len);
            assert(head@ =~= old(self).spec_head());
            assert(tail@ =~= old(self).spec_tail());
            let slices = (RunMut { slots: head, items: all }, RunMut { slots: tail, items: none });
            assert(slices.0@ + slices.1@ =~= old(self)@);
            slices
        }
    }
}

} // verus!
