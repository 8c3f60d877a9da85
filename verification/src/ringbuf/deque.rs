use super::RingBuf;
use crate::model::{
    front_slot, grown, is_weightless, lemma_representable_count, popped_back, popped_front,
    pushed_back, pushed_front, representable, slot_of, swapped, truncated,
};
use vstd::prelude::*;

verus! {

impl<T> RingBuf<T> {
    /// Appends `value`. A full ring buffer first grows to twice its length,
    /// and to two slots at least. An element that takes no storage is only
    /// counted: neither the capacity nor `lo` changes.
    pub fn push_back(&mut self, value: T)
        requires
            old(self).wf(),
            is_weightless::<T>() ==> old(self)@.len() < usize::MAX,
            !is_weightless::<T>() && old(self)@.len() == old(self).spec_capacity()
                ==> representable::<T>(grown(old(self)@.len() as int)),
        ensures
            final(self).wf(),
            final(self)@ == pushed_back(old(self)@, value),
            final(self).spec_capacity() == if !is_weightless::<T>() && old(self)@.len() == old(
                self,
            ).spec_capacity() {
                grown(old(self)@.len() as int)
            } else {
                old(self).spec_capacity() as int
            },
            final(self).spec_lo() == if !is_weightless::<T>() && old(self)@.len() == old(
                self,
            ).spec_capacity() {
                0
            } else {
                old(self).spec_lo()
            },
    {
        if core::mem::size_of::<T>() == 0 {
            self.len = self.len + 1;
            self.weightless.push(value);
            return ;
        }
        if self.len == self.block.capacity() {
            proof {
                lemma_representable_count::<T>(grown(self.len as int));
            }
            let least: usize = if self.len < 1 {
                1
            } else {
                self.len
            };
            self.resize(least * 2);
        }
        let offset = self.get_back_offset();
        self.block.write(offset, value);
        self.len = self.len + 1;
        assert(self@ =~= pushed_back(old(self)@, value));
    }

    /// Prepends `value`. A full ring buffer first grows as for `push_back`;
    /// the element goes to the slot before `lo`, which becomes the new `lo`.
    /// An element that takes no storage is only counted: neither the
    /// capacity nor `lo` changes.
    pub fn push_front(&mut self, value: T)
        requires
            old(self).wf(),
            is_weightless::<T>() ==> old(self)@.len() < usize::MAX,
            !is_weightless::<T>() && old(self)@.len() == old(self).spec_capacity()
                ==> representable::<T>(grown(old(self)@.len() as int)),
        ensures
            final(self).wf(),
            final(self)@ == pushed_front(old(self)@, value),
            final(self).spec_capacity() == if !is_weightless::<T>() && old(self)@.len() == old(
                self,
            ).spec_capacity() {
                grown(old(self)@.len() as int)
            } else {
                old(self).spec_capacity() as int
            },
            final(self).spec_lo() == if is_weightless::<T>() {
                old(self).spec_lo() as int
            } else if old(self)@.len() == old(self).spec_capacity() {
                grown(old(self)@.len() as int) - 1
            } else {
                front_slot(old(self).spec_lo() as int, old(self).spec_capacity() as int)
            },
    {
        if core::mem::size_of::<T>() == 0 {
            self.len = self.len + 1;
            self.weightless.insert(0, value);
            assert(self@ =~= pushed_front(old(self)@, value));
            return ;
        }
        if self.len == self.block.capacity() {
            proof {
                lemma_representable_count::<T>(grown(self.len as int));
            }
            let least: usize = if self.len < 1 {
                1
            } else {
                self.len
            };
            self.resize(least * 2);
        }
        let offset = self.get_front_offset();
        self.block.write(offset, value);
        self.len = self.len + 1;
        self.lo = offset;
        assert(self@ =~= pushed_front(old(self)@, value));
    }

    /// Removes the last element and returns it; `None` where there is none.
    pub fn pop_back(&mut self) -> (item: Option<T>)
        requires
            old(self).wf(),
        ensures
            final(self).wf(),
            (item, final(self)@) == popped_back(old(self)@),
            final(self).spec_capacity() == old(self).spec_capacity(),
            final(self).spec_lo() == old(self).spec_lo(),
    {
        if self.len == 0 {
            None
        } else if core::mem::size_of::<T>() == 0 {
            self.len = self.len - 1;
            let item = self.weightless.pop();
            assert(self@ =~= old(self)@.drop_last());
            item
        } else {
            let offset = self.get_offset(self.len - 1);
            self.len = self.len - 1;
            let item = self.block.take(offset);
            assert(self@ =~= old(self)@.drop_last());
            Some(item)
        }
    }

    /// Removes the first element and returns it; `None` where there is none.
    /// `lo` moves on to the slot of the element that was second, where the
    /// elements lie in slots.
    pub fn pop_front(&mut self) -> (item: Option<T>)
        requires
            old(self).wf(),
        ensures
            final(self).wf(),
            (item, final(self)@) == popped_front(old(self)@),
            final(self).spec_capacity() == old(self).spec_capacity(),
            final(self).spec_lo() == if is_weightless::<T>() || old(self)@.len() == 0 {
                old(self).spec_lo() as int
            } else {
                slot_of(old(self).spec_lo() as int, old(self).spec_capacity() as int, 1)
            },
    {
        if self.len == 0 {
            None
        } else if core::mem::size_of::<T>() == 0 {
            self.len = self.len - 1;
            let item = self.weightless.remove(0);
            assert(self@ =~= old(self)@.drop_first());
            Some(item)
        } else {
            let offset = self.get_offset(0);
            let next = self.get_offset(1);
            self.lo = next;
            self.len = self.len - 1;
            let item = self.block.take(offset);
            assert(self@ =~= old(self)@.drop_first());
            Some(item)
        }
    }

    /// Exchanges the elements at logical positions `i` and `j`.
    pub fn swap(&mut self, i: usize, j: usize)
        requires
            old(self).wf(),
            i < old(self)@.len(),
            j < old(self)@.len(),
        ensures
            final(self).wf(),
            final(self)@ == swapped(old(self)@, i as int, j as int),
            final(self).spec_capacity() == old(self).spec_capacity(),
            final(self).spec_lo() == old(self).spec_lo(),
    {
        if core::mem::size_of::<T>() == 0 {
            if i != j {
                let (low, high) = if i < j {
                    (i, j)
                } else {
                    (j, i)
                };
                let (left, right) = self.weightless.as_mut_slice().split_at_mut(high);
                core::mem::swap(&mut left[low], &mut right[0]);
            }
            assert(self@ =~= swapped(old(self)@, i as int, j as int));
        } else {
            let i_offset = self.get_offset(i);
            let j_offset = self.get_offset(j);
            self.block.swap(i_offset, j_offset);
            assert(self@ =~= swapped(old(self)@, i as int, j as int));
        }
    }

    /// Drops elements from the back until at most `len` are left.
    pub fn truncate(&mut self, len: usize)
        requires
            old(self).wf(),
        ensures
            final(self).wf(),
            final(self)@ == truncated(old(self)@, len as int),
            final(self).spec_capacity() == old(self).spec_capacity(),
            final(self).spec_lo() == old(self).spec_lo(),
    {
        while self.len > len
            invariant
                self.wf(),
                self.spec_len() == self@.len(),
                self@.len() <= old(self)@.len(),
                self@.len() >= len || self@.len() == old(self)@.len(),
                self@ == old(self)@.subrange(0, self@.len() as int),
                self.spec_capacity() == old(self).spec_capacity(),
                self.spec_lo() == old(self).spec_lo(),
            decreases self.spec_len(),
        {
            self.pop_back();
            assert(self@ =~= old(self)@.subrange(0, self@.len() as int));
        }
        assert(self@ =~= truncated(old(self)@, len as int));
    }

    /// Drops every element.
    pub fn clear(&mut self)
        requires
            old(self).wf(),
        ensures
            final(self).wf(),
            final(self)@ == Seq::<T>::empty(),
            final(self).spec_capacity() == old(self).spec_capacity(),
            final(self).spec_lo() == old(self).spec_lo(),
    {
        self.truncate(0);
        assert(self@ =~= Seq::<T>::empty());
    }

    /// The first element; `None` where there is none.
    pub fn front(&self) -> (item: Option<&T>)
        requires
            self.wf(),
        ensures
            match item {
                Some(first) => self@.len() > 0 && *first == self@.first(),
                None => self@.len() == 0,
            },
    {
        if self.len > 0 {
            Some(self.get(0))
        } else {
            None
        }
    }

    /// The last element; `None` where there is none.
    pub fn back(&self) -> (item: Option<&T>)
        requires
            self.wf(),
        ensures
            match item {
                Some(last) => self@.len() > 0 && *last == self@.last(),
                None => self@.len() == 0,
            },
    {
        if self.len > 0 {
            Some(self.get(self.len - 1))
        } else {
            None
        }
    }

    /// The first element, for writing; `None` where there is none.
    pub fn front_mut(&mut self) -> (item: Option<&mut T>)
        requires
            old(self).wf(),
        ensures
            final(self).wf(),
            final(self).spec_capacity() == old(self).spec_capacity(),
            final(self).spec_lo() == old(self).spec_lo(),
            old(self)@.len() == 0 ==> item.is_none() && final(self)@ == old(self)@,
            old(self)@.len() > 0 ==> item.is_some() && *item.unwrap() == old(self)@.first()
                && final(self)@ == old(self)@.update(0, *final(item.unwrap())),
    {
        if self.len > 0 {
            Some(self.get_mut(0))
        } else {
            None
        }
    }

    /// The last element, for writing; `None` where there is none.
    pub fn back_mut(&mut self) -> (item: Option<&mut T>)
        requires
            old(self).wf(),
        ensures
            final(self).wf(),
            final(self).spec_capacity() == old(self).spec_capacity(),
            final(self).spec_lo() == old(self).spec_lo(),
            old(self)@.len() == 0 ==> item.is_none() && final(self)@ == old(self)@,
            old(self)@.len() > 0 ==> item.is_some() && *item.unwrap() == old(self)@.last()
                && final(self)@ == old(self)@.update(
                old(self)@.len() - 1,
                *final(item.unwrap()),
            ),
    {
        let len = self.len;
        if len > 0 {
            Some(self.get_mut(len - 1))
        } else {
            None
        }
    }
}

} // verus!
