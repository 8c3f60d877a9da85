use super::RingBuf;
use crate::model::{
    is_weightless, lemma_representable_smaller, lemma_spans_cover, representable, ring_wf,
};
use crate::power::{lemma_next_power_of_two, next_power_of_two, reserved, spec_next_power_of_two};
use crate::storage::{allocate, deallocate};
use vstd::prelude::*;

verus! {

/// How the two spans of a ring are brought to the start of its block.
#[derive(Clone, Copy, Debug, PartialEq, Eq, Structural)]
pub enum ResetPlan {
    /// There is no element: nothing moves.
    Nothing,
    /// The live range does not wrap: the first span moves down to slot 0.
    ShiftDown,
    /// The free slots take the first span: the second span moves up behind
    /// where the first will end, then the first moves down to slot 0.
    MoveBoth,
    /// The first span is the shorter one: it waits in a scratch block while
    /// the second moves up, and goes to slot 0 then.
    StashHead,
    /// The second span is not longer than the first: it waits in a scratch
    /// block while the first moves down to slot 0, and goes behind it then.
    StashTail,
}

/// The plan for spans of `len1` and `len2` slots in a block that has `free`
/// vacant slots. The five cases exclude one another in this order.
pub open spec fn spec_reset_plan(len1: int, len2: int, free: int) -> ResetPlan {
    if len1 == 0 {
        ResetPlan::Nothing
    } else if len2 == 0 {
        ResetPlan::ShiftDown
    } else if len1 <= free {
        ResetPlan::MoveBoth
    } else if len1 < len2 {
        ResetPlan::StashHead
    } else {
        ResetPlan::StashTail
    }
}

/// Chooses how spans of `len1` and `len2` slots are brought to the start of
/// a block that has `free` vacant slots.
pub fn reset_plan(len1: usize, len2: usize, free: usize) -> (plan: ResetPlan)
    ensures
        plan == spec_reset_plan(len1 as int, len2 as int, free as int),
{
    if len1 == 0 {
        ResetPlan::Nothing
    } else if len2 == 0 {
        ResetPlan::ShiftDown
    } else if len1 <= free {
        ResetPlan::MoveBoth
    } else if len1 < len2 {
        ResetPlan::StashHead
    } else {
        ResetPlan::StashTail
    }
}

impl<T> RingBuf<T> {
    /// Brings the elements to the start of the block, so that `lo` is 0. A
    /// scratch block is made only where the free slots cannot take the
    /// first span, and then for the shorter of the two spans.
    pub fn reset(&mut self)
        requires
            old(self).wf(),
        ensures
            final(self).wf(),
            final(self)@ == old(self)@,
            final(self).spec_capacity() == old(self).spec_capacity(),
            final(self).spec_lo() == 0,
    {
        if self.lo == 0 {
            return ;
        }
        let (first, second) = self.get_spans();
        proof {
            lemma_spans_cover(self.slots(), self.lo as int, self.len as int);
            lemma_representable_smaller::<T>(first.len as int, self.slots().len() as int);
            lemma_representable_smaller::<T>(second.len as int, self.slots().len() as int);
        }
        let free = self.block.capacity() - first.len - second.len;
        match reset_plan(first.len, second.len, free) {
            ResetPlan::Nothing => {},
            ResetPlan::ShiftDown => {
                self.block.shift(first.start, 0, first.len);
            },
            ResetPlan::MoveBoth => {
                self.block.shift(second.start, first.len, second.len);
                self.block.shift(first.start, 0, first.len);
            },
            ResetPlan::StashHead => {
                let mut scratch = allocate::<T>(first.len);
                self.block.transfer(first.start, &mut scratch, 0, first.len);
                self.block.shift(second.start, first.len, second.len);
                scratch.transfer(0, &mut self.block, 0, first.len);
                deallocate(scratch);
            },
            ResetPlan::StashTail => {
                let mut scratch = allocate::<T>(second.len);
                self.block.transfer(second.start, &mut scratch, 0, second.len);
                self.block.shift(first.start, 0, first.len);
                scratch.transfer(0, &mut self.block, first.len, second.len);
                deallocate(scratch);
            },
        }
        self.lo = 0;
        proof {
            assert(ring_wf(self.slots(), 0, self.len as int));
            assert(self@ =~= old(self)@);
        }
    }

    /// Makes room for `capacity` elements exactly, where there is less.
    pub fn reserve_exact(&mut self, capacity: usize)
        requires
            old(self).wf(),
            capacity > old(self).spec_capacity() ==> representable::<T>(capacity as int),
        ensures
            final(self).wf(),
            final(self)@ == old(self)@,
            final(self).spec_capacity() == if capacity > old(self).spec_capacity() {
                capacity as nat
            } else {
                old(self).spec_capacity()
            },
            final(self).spec_lo() == if capacity > old(self).spec_capacity() {
                0
            } else {
                old(self).spec_lo()
            },
    {
        if capacity > self.capacity() {
            self.resize(capacity);
        }
    }

    /// Makes room for `capacity` elements at least: for the next power of
    /// two, where there is less.
    pub fn reserve(&mut self, capacity: usize)
        requires
            old(self).wf(),
            spec_next_power_of_two(capacity as int) <= usize::MAX,
            spec_next_power_of_two(capacity as int) > old(self).spec_capacity()
                ==> representable::<T>(spec_next_power_of_two(capacity as int)),
        ensures
            final(self).wf(),
            final(self)@ == old(self)@,
            final(self).spec_capacity() == reserved(
                old(self).spec_capacity() as int,
                capacity as int,
            ),
            final(self).spec_lo() == if spec_next_power_of_two(capacity as int) > old(
                self,
            ).spec_capacity() {
                0
            } else {
                old(self).spec_lo()
            },
            final(self).spec_capacity() >= capacity,
    {
        proof {
            lemma_next_power_of_two(capacity as int);
        }
        self.reserve_exact(next_power_of_two(capacity))
    }

    /// Makes room for `extra` elements more than there are, where the free
    /// slots are fewer.
    pub fn reserve_additional(&mut self, extra: usize)
        requires
            old(self).wf(),
            old(self).spec_capacity() - old(self)@.len() < extra ==> old(self)@.len() + extra
                <= usize::MAX && spec_next_power_of_two(old(self)@.len() + extra) <= usize::MAX
                && representable::<T>(spec_next_power_of_two(old(self)@.len() + extra)),
        ensures
            final(self).wf(),
            final(self)@ == old(self)@,
            final(self).spec_capacity() == if old(self).spec_capacity() - old(self)@.len()
                < extra {
                spec_next_power_of_two(old(self)@.len() + extra)
            } else {
                old(self).spec_capacity() as int
            },
            final(self).spec_lo() == if old(self).spec_capacity() - old(self)@.len() < extra {
                0
            } else {
                old(self).spec_lo()
            },
            final(self).spec_capacity() - final(self)@.len() >= extra,
    {
        if self.capacity() - self.len < extra {
            proof {
                lemma_next_power_of_two(self.len + extra);
            }
            let size = self.len + extra;
            self.reserve(size);
        }
    }

    /// Gives up every slot that holds no element.
    pub fn shrink_to_fit(&mut self)
        requires
            old(self).wf(),
        ensures
            final(self).wf(),
            final(self)@ == old(self)@,
            final(self).spec_capacity() == if is_weightless::<T>() {
                usize::MAX as nat
            } else {
                old(self)@.len()
            },
            final(self).spec_lo() == if is_weightless::<T>() || old(self)@.len() == old(
                self,
            ).spec_capacity() {
                old(self).spec_lo()
            } else {
                0
            },
    {
        let len = self.len;
        proof {
            if !is_weightless::<T>() {
                lemma_representable_smaller::<T>(len as int, self.slots().len() as int);
            }
        }
        self.resize(len);
    }

    /// Moves the elements into a block of `capacity` slots, where they start
    /// at slot 0. Nothing happens where the capacity is `capacity` already,
    /// nor where the elements take no storage.
    pub fn resize(&mut self, capacity: usize)
        requires
            old(self).wf(),
            capacity >= old(self)@.len(),
            capacity != old(self).spec_capacity() ==> representable::<T>(capacity as int),
        ensures
            final(self).wf(),
            final(self)@ == old(self)@,
            final(self).spec_capacity() == if is_weightless::<T>() {
                usize::MAX
            } else {
                capacity
            },
            final(self).spec_lo() == if is_weightless::<T>() || capacity == old(
                self,
            ).spec_capacity() {
                old(self).spec_lo()
            } else {
                0
            },
    {
        if capacity == self.capacity() {
            return ;
        }
        if core::mem::size_of::<T>() == 0 {
            return ;
        }
        let (first, second) = self.get_spans();
        proof {
            lemma_spans_cover(self.slots(), self.lo as int, self.len as int);
        }
        let mut block = allocate::<T>(capacity);
        if capacity != 0 {
            self.block.transfer(first.start, &mut block, 0, first.len);
            self.block.transfer(second.start, &mut block, first.len, second.len);
        }
        core::mem::swap(&mut self.block, &mut block);
        if block.capacity() != 0 {
            deallocate(block);
        }
        self.lo = 0;
        proof {
            assert(ring_wf(self.slots(), 0, self.len as int));
            assert(self@ =~= old(self)@);
        }
    }

    /// Drops every element and gives the block back. Dropping the ring
    /// buffer does the same.
    pub fn release(self)
        requires
            self.wf(),
    {
        let mut ring = self;
        ring.clear();
        assert(ring@.len() == 0);
        let RingBuf { lo: _, len: _, block, weightless: _ } = ring;
        if block.capacity() != 0 {
            deallocate(block);
        }
    }
}

} // verus!
