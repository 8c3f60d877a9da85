use crate::model::{
    front_slot, is_weightless, lemma_slot_of_is_modular, linear, representable, ring_wf, slot_of,
};
use crate::storage::{allocate, Block};
use vstd::prelude::*;

mod convert;
mod deque;
pub mod iter;
pub mod reflow;
pub mod slices;

verus! {

/// Smallest capacity that a pre-sized ring buffer is made with.
pub const MINIMUM_CAPACITY: usize = 2;

/// A contiguous physical range of a block: `len` slots from `start` on.
#[derive(Clone, Copy, Debug)]
pub struct Span {
    pub start: usize,
    pub len: usize,
}

/// A double-ended queue in one block of slots that is addressed circularly.
///
/// The element at logical position `i` lives in slot `(lo + i) mod cap`.
/// Elements that take no storage lie in no block: they are only counted,
/// `lo` stays 0 and the capacity is `usize::MAX`.
#[derive(Debug)]
pub struct RingBuf<T> {
    /// Slot of the element at logical position 0.
    lo: usize,
    /// Number of elements.
    len: usize,
    /// The slots; their number is the capacity. Without a slot where the
    /// elements take no storage.
    block: Block<T>,
    /// The elements in their order, where they take no storage: a `Vec` of
    /// such elements has no block either. Empty otherwise.
    weightless: Vec<T>,
}

impl<T> RingBuf<T> {
    /// The slots of the block, in physical order.
    pub closed spec fn slots(&self) -> Seq<Option<T>> {
        self.block@
    }

    /// The elements that lie in no block, in their order.
    pub closed spec fn weightless(&self) -> Seq<T> {
        self.weightless@
    }

    /// Slot of the element at logical position 0.
    pub closed spec fn spec_lo(&self) -> usize {
        self.lo
    }

    /// Number of elements.
    pub closed spec fn spec_len(&self) -> usize {
        self.len
    }

    /// Number of elements that the ring buffer holds without growing: the
    /// number of slots, and `usize::MAX` for elements that take no storage.
    pub open spec fn spec_capacity(&self) -> nat {
        if is_weightless::<T>() {
            usize::MAX as nat
        } else {
            self.slots().len()
        }
    }

    /// The layout invariant. Where elements take storage: `lo` and `len` are
    /// within the capacity, exactly the slots of the live range are
    /// occupied, and the block can be counted in bytes. Where they take
    /// none: there is no slot, `lo` is 0, and `len` counts the elements.
    pub open spec fn wf(&self) -> bool {
        if is_weightless::<T>() {
            &&& self.slots().len() == 0
            &&& self.spec_lo() == 0
            &&& self.weightless().len() == self.spec_len()
        } else {
            &&& self.weightless().len() == 0
            &&& ring_wf(self.slots(), self.spec_lo() as int, self.spec_len() as int)
            &&& representable::<T>(self.slots().len() as int)
        }
    }

    /// The elements, front to back.
    pub open spec fn view(&self) -> Seq<T> {
        if is_weightless::<T>() {
            self.weightless()
        } else {
            linear(self.slots(), self.spec_lo() as int, self.spec_len() as int)
        }
    }

    /// An empty ring buffer without a block.
    pub fn new() -> (ring: RingBuf<T>)
        ensures
            ring.wf(),
            ring@ == Seq::<T>::empty(),
            ring.spec_capacity() == if is_weightless::<T>() {
                usize::MAX as nat
            } else {
                0
            },
            ring.slots().len() == 0,
            ring.spec_lo() == 0,
    {
        let ring = RingBuf { lo: 0, len: 0, block: allocate(0), weightless: Vec::new() };
        assert(ring@ =~= Seq::<T>::empty());
        ring
    }

    /// An empty ring buffer with room for `capacity` elements, and for
    /// `MINIMUM_CAPACITY` at least. For elements that take no storage no
    /// block is made, and the capacity is `usize::MAX`.
    pub fn with_capacity(capacity: usize) -> (ring: RingBuf<T>)
        requires
            representable::<T>(
                if capacity < MINIMUM_CAPACITY {
                    MINIMUM_CAPACITY as int
                } else {
                    capacity as int
                },
            ),
        ensures
            ring.wf(),
            ring@ == Seq::<T>::empty(),
            ring.spec_capacity() == if is_weightless::<T>() {
                usize::MAX
            } else if capacity < MINIMUM_CAPACITY {
                MINIMUM_CAPACITY
            } else {
                capacity
            },
            ring.spec_lo() == 0,
    {
        let slots = if capacity < MINIMUM_CAPACITY {
            MINIMUM_CAPACITY
        } else {
            capacity
        };
        let ring = RingBuf { lo: 0, len: 0, block: allocate(slots), weightless: Vec::new() };
        assert(ring@ =~= Seq::<T>::empty());
        ring
    }

    /// The capacity fits in `usize`.
    pub proof fn lemma_capacity_bounded(&self)
        ensures
            self.spec_capacity() <= usize::MAX,
            self.slots().len() <= usize::MAX,
    {
        self.block.lemma_capacity_bounded();
    }

    /// Number of elements.
    pub fn len(&self) -> (n: usize)
        requires
            self.wf(),
        ensures
            n == self@.len(),
            n == self.spec_len(),
    {
        self.len
    }

    /// Number of elements that the ring buffer holds without growing.
    pub fn capacity(&self) -> (cap: usize)
        ensures
            cap == self.spec_capacity(),
    {
        if core::mem::size_of::<T>() == 0 {
            usize::MAX
        } else {
            self.block.capacity()
        }
    }

    /// Slot of the element at logical position `index`. The subtraction comes
    /// first, so that no intermediate value leaves the range of `usize`.
    pub fn get_offset(&self, index: usize) -> (slot: usize)
        requires
            self.wf(),
            index <= self.spec_capacity(),
        ensures
            slot == slot_of(self.spec_lo() as int, self.spec_capacity() as int, index as int),
            self.spec_capacity() > 0 ==> slot == (self.spec_lo() + index) % (
            self.spec_capacity() as int),
    {
        let cap = self.capacity();
        proof {
            if cap > 0 {
                lemma_slot_of_is_modular(self.lo as int, cap as int, index as int);
            }
        }
        if self.lo >= cap - index {
            index - (cap - self.lo)
        } else {
            self.lo + index
        }
    }

    /// Slot that the next element pushed to the back goes to.
    pub fn get_back_offset(&self) -> (slot: usize)
        requires
            self.wf(),
        ensures
            slot == slot_of(
                self.spec_lo() as int,
                self.spec_capacity() as int,
                self@.len() as int,
            ),
    {
        self.get_offset(self.len)
    }

    /// Slot that the next element pushed to the front goes to.
    pub fn get_front_offset(&self) -> (slot: usize)
        requires
            self.wf(),
            self.spec_capacity() > 0,
        ensures
            slot == front_slot(self.spec_lo() as int, self.spec_capacity() as int),
    {
        if self.lo == 0 {
            self.capacity() - 1
        } else {
            self.lo - 1
        }
    }

    /// The element at logical position `index`.
    pub fn get(&self, index: usize) -> (item: &T)
        requires
            self.wf(),
            index < self@.len(),
        ensures
            *item == self@[index as int],
    {
        if core::mem::size_of::<T>() == 0 {
            &self.weightless[index]
        } else {
            let offset = self.get_offset(index);
            self.block.read(offset)
        }
    }

    /// The element at logical position `index`, for writing.
    pub fn get_mut(&mut self, index: usize) -> (item: &mut T)
        requires
            old(self).wf(),
            index < old(self)@.len(),
        ensures
            *item == old(self)@[index as int],
            final(self).wf(),
            final(self)@ == old(self)@.update(index as int, *final(item)),
            final(self).spec_capacity() == old(self).spec_capacity(),
            final(self).spec_lo() == old(self).spec_lo(),
    {
        if core::mem::size_of::<T>() == 0 {
            &mut self.weightless[index]
        } else {
            let offset = self.get_offset(index);
            let item = self.block.read_mut(offset);
            proof {
                let after = old(self).slots().update(offset as int, Some(*final(item)));
                let lo = old(self).spec_lo() as int;
                let len = old(self).spec_len() as int;
                assert(ring_wf(after, lo, len));
                assert(linear(after, lo, len) =~= old(self)@.update(index as int, *final(item)));
            }
            item
        }
    }
}

impl<T> Default for RingBuf<T> {
    /// An empty ring buffer without a block.
    fn default() -> (ring: RingBuf<T>)
        ensures
            ring.wf(),
            ring@ == Seq::<T>::empty(),
            ring.slots().len() == 0,
            ring.spec_lo() == 0,
    {
        RingBuf::new()
    }
}

} // verus!
