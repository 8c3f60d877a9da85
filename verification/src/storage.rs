use crate::model::{
    all_held, all_vacant, held, is_weightless, occupied, overlaid, representable, shifted,
    shifted_part, vacant, vacated,
};
use vstd::prelude::*;

verus! {

/// An owned contiguous block of element slots. A slot is vacant or holds one
/// element; the number of slots is the block's capacity.
#[derive(Debug)]
pub struct Block<T> {
    slots: Vec<Option<T>>,
}

impl<T> Block<T> {
    /// The slots, in physical order.
    pub closed spec fn view(&self) -> Seq<Option<T>> {
        self.slots@
    }

    /// The number of slots fits in `usize`.
    pub proof fn lemma_capacity_bounded(&self)
        ensures
            self@.len() <= usize::MAX,
    {
        assert(self.slots.len() == self.slots@.len());
    }

    /// Number of slots.
    pub fn capacity(&self) -> (cap: usize)
        ensures
            cap == self@.len(),
    {
        self.slots.len()
    }

    /// The element in slot `at`.
    pub fn read(&self, at: usize) -> (item: &T)
        requires
            at < self@.len(),
            self@[at as int].is_some(),
        ensures
            *item == self@[at as int].unwrap(),
    {
        self.slots[at].as_ref().unwrap()
    }

    /// The element in slot `at`, for writing.
    pub fn read_mut(&mut self, at: usize) -> (item: &mut T)
        requires
            at < old(self)@.len(),
            old(self)@[at as int].is_some(),
        ensures
            *item == old(self)@[at as int].unwrap(),
            final(self)@ == old(self)@.update(at as int, Some(*final(item))),
    {
        self.slots[at].as_mut().unwrap()
    }

    /// Puts `value` into slot `at`.
    pub fn write(&mut self, at: usize, value: T)
        requires
            at < old(self)@.len(),
        ensures
            final(self)@ == old(self)@.update(at as int, Some(value)),
    {
        self.slots[at] = Some(value);
    }

    /// Moves the element out of slot `at` and leaves the slot vacant.
    pub fn take(&mut self, at: usize) -> (item: T)
        requires
            at < old(self)@.len(),
            old(self)@[at as int].is_some(),
        ensures
            item == old(self)@[at as int].unwrap(),
            final(self)@ == old(self)@.update(at as int, None),
    {
        self.slots[at].take().unwrap()
    }

    /// Exchanges the contents of slots `a` and `b`.
    pub fn swap(&mut self, a: usize, b: usize)
        requires
            a < old(self)@.len(),
            b < old(self)@.len(),
        ensures
            final(self)@ == old(self)@.update(a as int, old(self)@[b as int]).update(
                b as int,
                old(self)@[a as int],
            ),
    {
        if a != b {
            let first = self.slots[a].take();
            let second = self.slots[b].take();
            self.slots[a] = second;
            self.slots[b] = first;
        }
        assert(self@ =~= old(self)@.update(a as int, old(self)@[b as int]).update(
            b as int,
            old(self)@[a as int],
        ));
    }

    /// Moves the run of `count` slots at `src` to `dst`; the two runs may
    /// overlap.
    pub fn shift(&mut self, src: usize, dst: usize, count: usize)
        requires
            src + count <= old(self)@.len(),
            dst + count <= old(self)@.len(),
        ensures
            final(self)@ == shifted(old(self)@, src as int, dst as int, count as int),
    {
        assert(self.slots.len() == self@.len());
        if dst < src {
            let mut i: usize = 0;
            while i < count
                invariant
                    i <= count,
                    dst < src,
                    src + count <= old(self)@.len() <= usize::MAX,
                    self@ =~= shifted_part(old(self)@, src as int, dst as int, 0, i as int),
                decreases count - i,
            {
                let item = self.slots[src + i].take();
                self.slots[dst + i] = item;
                i = i + 1;
            }
        } else if dst > src {
            let mut k: usize = count;
            while k > 0
                invariant
                    k <= count,
                    dst > src,
                    dst + count <= old(self)@.len() <= usize::MAX,
                    self@ =~= shifted_part(
                        old(self)@,
                        src as int,
                        dst as int,
                        k as int,
                        count as int,
                    ),
                decreases k,
            {
                k = k - 1;
                let item = self.slots[src + k].take();
                self.slots[dst + k] = item;
            }
        }
        assert(self@ =~= shifted(old(self)@, src as int, dst as int, count as int));
    }

    /// Moves the run of `count` slots at `src` of this block to `dst` of
    /// another block.
    pub fn transfer(&mut self, src: usize, into: &mut Block<T>, dst: usize, count: usize)
        requires
            src + count <= old(self)@.len(),
            dst + count <= old(into)@.len(),
        ensures
            final(self)@ == vacated(old(self)@, src as int, count as int),
            final(into)@ == overlaid(
                old(into)@,
                dst as int,
                old(self)@.subrange(src as int, src + count),
            ),
    {
        assert(self.slots.len() == self@.len());
        assert(into.slots.len() == into@.len());
        let mut i: usize = 0;
        while i < count
            invariant
                i <= count,
                src + count <= old(self)@.len() <= usize::MAX,
                dst + count <= old(into)@.len() <= usize::MAX,
                self@ =~= vacated(old(self)@, src as int, i as int),
                into@ =~= overlaid(
                    old(into)@,
                    dst as int,
                    old(self)@.subrange(src as int, src + i),
                ),
            decreases count - i,
        {
            let item = self.slots[src + i].take();
            into.slots[dst + i] = item;
            i = i + 1;
        }
    }

    /// A block of `capacity` slots of which the first hold `items`, in
    /// their order.
    pub fn from_vec(items: Vec<T>, capacity: usize) -> (block: Block<T>)
        requires
            capacity >= items@.len(),
            representable::<T>(capacity as int),
        ensures
            block@ == occupied(items@) + vacant::<T>((capacity - items@.len()) as nat),
    {
        let mut slots: Vec<Option<T>> = Vec::with_capacity(capacity);
        let ghost all = items@;
        for item in it: items
            invariant
                it.seq() == all,
                slots@ =~= occupied(all.subrange(0, it.index())),
        {
            slots.push(Some(item));
        }
        assert(all.subrange(0, all.len() as int) =~= all);
        let mut n: usize = slots.len();
        while n < capacity
            invariant
                all.len() <= n <= capacity,
                slots@ =~= occupied(all) + vacant::<T>((n - all.len()) as nat),
            decreases capacity - n,
        {
            slots.push(None);
            n = n + 1;
        }
        Block { slots }
    }

    /// The elements of the first `len` slots, in their order.
    pub fn into_vec(self, len: usize) -> (items: Vec<T>)
        requires
            len <= self@.len(),
            all_held(self@.subrange(0, len as int)),
        ensures
            items@ == held(self@.subrange(0, len as int)),
    {
        let ghost old_slots = self@;
        let mut block = self;
        let mut items: Vec<T> = Vec::with_capacity(len);
        let mut i: usize = 0;
        while i < len
            invariant
                i <= len <= block@.len(),
                block@ =~= vacated(old_slots, 0, i as int),
                items@ =~= held(old_slots.subrange(0, i as int)),
                all_held(old_slots.subrange(0, len as int)),
            decreases len - i,
        {
            assert(old_slots.subrange(0, len as int)[i as int].is_some());
            let item = block.take(i);
            items.push(item);
            i = i + 1;
        }
        items
    }

    /// The slots as a slice.
    pub fn as_slice(&self) -> (slots: &[Option<T>])
        ensures
            slots@ == self@,
    {
        self.slots.as_slice()
    }

    /// The slots as a slice, for writing.
    pub fn as_mut_slice(&mut self) -> (slots: &mut [Option<T>])
        ensures
            slots@ == old(self)@,
            final(slots)@ == final(self)@,
    {
        self.slots.as_mut_slice()
    }
}

/// Whether the size in bytes of a block of `capacity` elements can be
/// counted: whether `capacity` times the size of an element fits in `usize`.
pub fn is_representable<T>(capacity: usize) -> (ok: bool)
    ensures
        ok == representable::<T>(capacity as int),
{
    capacity.checked_mul(core::mem::size_of::<T>()).is_some()
}

/// A block of `capacity` vacant slots. None is made for a capacity of 0, nor
/// for elements that take no storage: the block then has no slot. Whether
/// memory has room for a block that can be counted is the allocator's
/// concern, which stops the program where it has not.
pub fn allocate<T>(capacity: usize) -> (block: Block<T>)
    requires
        representable::<T>(capacity as int),
    ensures
        block@ == if is_weightless::<T>() {
            vacant::<T>(0)
        } else {
            vacant::<T>(capacity as nat)
        },
{
    if core::mem::size_of::<T>() == 0 {
        let block = Block { slots: Vec::new() };
        assert(block@ =~= vacant::<T>(0));
        return block;
    }
    let mut slots: Vec<Option<T>> = Vec::with_capacity(capacity);
    let mut n: usize = 0;
    while n < capacity
        invariant
            n <= capacity,
            slots@ =~= vacant::<T>(n as nat),
        decreases capacity - n,
    {
        slots.push(None);
        n = n + 1;
    }
    Block { slots }
}

/// Gives a block back. Only a block that has slots is ever given back, and
/// only after every element has left it.
pub fn deallocate<T>(block: Block<T>)
    requires
        block@.len() > 0,
        all_vacant(block@),
{
    let Block { slots: _ } = block;
}

} // verus!
