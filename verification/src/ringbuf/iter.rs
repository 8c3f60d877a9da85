use super::slices::{Run, RunMut};
use super::RingBuf;
use crate::model::{all_held, held, is_weightless, lemma_spans_cover, popped_back, popped_front};
use crate::storage::{deallocate, Block};
use vstd::prelude::*;

verus! {

/// A traversal of a ring buffer's elements by reference: over the first
/// run, then over the second. It can be taken from either end.
pub struct Items<'a, T> {
    head: Run<'a, T>,
    tail: Run<'a, T>,
    front: usize,
    back: usize,
}

impl<'a, T> Items<'a, T> {
    /// Both runs are in good order, and the two ends have not passed one
    /// another.
    pub closed spec fn wf(&self) -> bool {
        &&& self.head.wf()
        &&& self.tail.wf()
        &&& self.front <= self.back <= self.head@.len() + self.tail@.len()
    }

    /// The elements that are still to come, front to back.
    pub closed spec fn view(&self) -> Seq<T> {
        (self.head@ + self.tail@).subrange(self.front as int, self.back as int)
    }

    fn at(&self, position: usize) -> (item: &'a T)
        requires
            self.wf(),
            position < self.head@.len() + self.tail@.len(),
        ensures
            *item == (self.head@ + self.tail@)[position as int],
    {
        let n = self.head.len();
        if position < n {
            self.head.get(position)
        } else {
            self.tail.get(position - n)
        }
    }

    /// The next element from the front; `None` once all have been given.
    pub fn next(&mut self) -> (item: Option<&'a T>)
        requires
            old(self).wf(),
        ensures
            final(self).wf(),
            match item {
                Some(first) => old(self)@.len() > 0 && *first == old(self)@.first()
                    && final(self)@ == old(self)@.drop_first(),
                None => old(self)@.len() == 0 && final(self)@ == old(self)@,
            },
    {
        if self.front < self.back {
            let position = self.front;
            self.front = self.front + 1;
            assert(self@ =~= old(self)@.drop_first());
            Some(self.at(position))
        } else {
            None
        }
    }

    /// The next element from the back; `None` once all have been given.
    pub fn next_back(&mut self) -> (item: Option<&'a T>)
        requires
            old(self).wf(),
        ensures
            final(self).wf(),
            match item {
                Some(last) => old(self)@.len() > 0 && *last == old(self)@.last() && final(self)@
                    == old(self)@.drop_last(),
                None => old(self)@.len() == 0 && final(self)@ == old(self)@,
            },
    {
        if self.front < self.back {
            self.back = self.back - 1;
            assert(self@ =~= old(self)@.drop_last());
            Some(self.at(self.back))
        } else {
            None
        }
    }

    /// How many elements are still to come: the lower bound, and the upper
    /// bound, which is the same.
    pub fn size_hint(&self) -> (bounds: (usize, Option<usize>))
        requires
            self.wf(),
        ensures
            bounds.0 == self@.len(),
            bounds.1 == Some(bounds.0),
    {
        let left = self.back - self.front;
        (left, Some(left))
    }
}

/// A traversal of a ring buffer's elements for writing: over the first
/// run, then over the second. An element is lent out until the next one is
/// asked for.
pub struct MutItems<'a, T> {
    /// The first run.
    pub head: RunMut<'a, T>,
    /// The second run.
    pub tail: RunMut<'a, T>,
    /// Position, in both runs taken together, of the next element from the
    /// front.
    pub front: usize,
    /// Position behind the next element from the back.
    pub back: usize,
}

impl<'a, T> MutItems<'a, T> {
    /// Both runs are in good order, and the two ends have not passed one
    /// another.
    pub open spec fn wf(&self) -> bool {
        &&& self.head.wf()
        &&& self.tail.wf()
        &&& self.front <= self.back <= self.head@.len() + self.tail@.len()
    }

    /// The elements of both runs as they are now, front to back.
    pub open spec fn all(&self) -> Seq<T> {
        self.head@ + self.tail@
    }

    /// The elements that are still to come, front to back.
    pub open spec fn view(&self) -> Seq<T> {
        self.all().subrange(self.front as int, self.back as int)
    }

    /// Whether the two traversals are over the same slices, each of the
    /// length that it had.
    pub open spec fn same_places(&self, before: &Self) -> bool {
        &&& self.head.slots@.len() == before.head.slots@.len()
        &&& self.head.items@.len() == before.head.items@.len()
        &&& self.tail.slots@.len() == before.tail.slots@.len()
        &&& self.tail.items@.len() == before.tail.items@.len()
    }

    fn at(&mut self, position: usize) -> (item: &mut T)
        requires
            old(self).wf(),
            position < old(self).head@.len() + old(self).tail@.len(),
        ensures
            *item == old(self).all()[position as int],
            final(self).wf(),
            final(self).all() == old(self).all().update(position as int, *final(item)),
            final(self).front == old(self).front,
            final(self).back == old(self).back,
            final(self).same_places(old(self)),
            final(final(self).head.slots)@ == final(old(self).head.slots)@,
            final(final(self).head.items)@ == final(old(self).head.items)@,
            final(final(self).tail.slots)@ == final(old(self).tail.slots)@,
            final(final(self).tail.items)@ == final(old(self).tail.items)@,
    {
        let n = self.head.len();
        if position < n {
            assert forall|v: T|
                #[trigger] self.head@.update(position as int, v) + self.tail@
                    == self.all().update(position as int, v) by {
                assert(self.head@.update(position as int, v) + self.tail@ =~= self.all().update(
                    position as int,
                    v,
                ));
            }
            self.head.get_mut(position)
        } else {
            assert forall|v: T|
                self.head@ + #[trigger] self.tail@.update(position - n, v) == self.all().update(
                    position as int,
                    v,
                ) by {
                assert(self.head@ + self.tail@.update(position - n, v) =~= self.all().update(
                    position as int,
                    v,
                ));
            }
            self.tail.get_mut(position - n)
        }
    }

    /// The next element from the front, for writing; `None` once all have
    /// been given.
    pub fn next(&mut self) -> (item: Option<&mut T>)
        requires
            old(self).wf(),
        ensures
            final(self).wf(),
            final(self).back == old(self).back,
            final(self).same_places(old(self)),
            final(final(self).head.slots)@ == final(old(self).head.slots)@,
            final(final(self).head.items)@ == final(old(self).head.items)@,
            final(final(self).tail.slots)@ == final(old(self).tail.slots)@,
            final(final(self).tail.items)@ == final(old(self).tail.items)@,
            old(self)@.len() == 0 ==> item.is_none() && final(self).front == old(self).front
                && final(self).all() == old(self).all(),
            old(self)@.len() > 0 ==> item.is_some() && *item.unwrap() == old(self)@.first()
                && final(self).front == old(self).front + 1 && final(self).all() == old(
                self,
            ).all().update(old(self).front as int, *final(item.unwrap())),
    {
        if self.front < self.back {
            let position = self.front;
            self.front = self.front + 1;
            Some(self.at(position))
        } else {
            None
        }
    }

    /// The next element from the back, for writing; `None` once all have
    /// been given.
    pub fn next_back(&mut self) -> (item: Option<&mut T>)
        requires
            old(self).wf(),
        ensures
            final(self).wf(),
            final(self).front == old(self).front,
            final(self).same_places(old(self)),
            final(final(self).head.slots)@ == final(old(self).head.slots)@,
            final(final(self).head.items)@ == final(old(self).head.items)@,
            final(final(self).tail.slots)@ == final(old(self).tail.slots)@,
            final(final(self).tail.items)@ == final(old(self).tail.items)@,
            old(self)@.len() == 0 ==> item.is_none() && final(self).back == old(self).back
                && final(self).all() == old(self).all(),
            old(self)@.len() > 0 ==> item.is_some() && *item.unwrap() == old(self)@.last()
                && final(self).back == old(self).back - 1 && final(self).all() == old(
                self,
            ).all().update(old(self).back - 1, *final(item.unwrap())),
    {
        if self.front < self.back {
            self.back = self.back - 1;
            let position = self.back;
            Some(self.at(position))
        } else {
            None
        }
    }

    /// How many elements are still to come: the lower bound, and the upper
    /// bound, which is the same.
    pub fn size_hint(&self) -> (bounds: (usize, Option<usize>))
        requires
            self.wf(),
        ensures
            bounds.0 == self@.len(),
            bounds.1 == Some(bounds.0),
    {
        let left = self.back - self.front;
        (left, Some(left))
    }
}

impl<T> RingBuf<T> {
    /// A traversal of the elements by reference, front to back.
    pub fn iter(&self) -> (items: Items<'_, T>)
        requires
            self.wf(),
        ensures
            items.wf(),
            items@ == self@,
    {
        let (head, tail) = self.as_slices();
        let items = Items { head, tail, front: 0, back: self.len };
        assert(items@ =~= self@);
        items
    }

    /// A traversal of the elements for writing, front to back. The ring
    /// buffer is as the traversal leaves the two runs.
    pub fn mut_iter(&mut self) -> (items: MutItems<'_, T>)
        requires
            old(self).wf(),
        ensures
            items.wf(),
            items.all() == old(self)@,
            items.front == 0,
            items.back == old(self)@.len(),
            final(self).spec_lo() == old(self).spec_lo(),
            final(self).spec_len() == old(self).spec_len(),
            final(items.head.slots)@.len() == items.head.slots@.len()
                && final(items.tail.slots)@.len() == items.tail.slots@.len()
                && final(items.head.items)@.len() == items.head.items@.len()
                && final(items.tail.items)@.len() == items.tail.items@.len()
                && all_held(final(items.head.slots)@)
                && all_held(final(items.tail.slots)@) ==> final(self).wf() && final(self).spec_capacity() == old(self).spec_capacity()
                && final(self)@ == held(final(items.head.slots)@) + final(items.head.items)@
                + held(final(items.tail.slots)@) + final(items.tail.items)@,
    {
        let back = self.len;
        let (head, tail) = self.as_mut_slices();
        MutItems { head, tail, front: 0, back }
    }
}

/// A traversal that owns the block of a ring buffer and moves the elements
/// out of it, from either end. What it has not given when it is dropped is
/// dropped with the block.
pub struct MoveItems<T> {
    /// The block that the ring buffer owned.
    block: Block<T>,
    /// The slots of the first span that are still occupied: from
    /// `head_start` up to `head_end`.
    head_start: usize,
    head_end: usize,
    /// The slots of the second span that are still occupied.
    tail_start: usize,
    tail_end: usize,
    /// The elements that lie in no slot and are still to come, in their
    /// order.
    weightless: Vec<T>,
}

impl<T> MoveItems<T> {
    /// The slots of the block.
    pub closed spec fn slots(&self) -> Seq<Option<T>> {
        self.block@
    }

    /// The elements that lie in no slot and are still to come.
    pub closed spec fn weightless(&self) -> Seq<T> {
        self.weightless@
    }

    /// The range of slots of the first span that are still occupied.
    pub closed spec fn head(&self) -> (int, int) {
        (self.head_start as int, self.head_end as int)
    }

    /// The range of slots of the second span that are still occupied.
    pub closed spec fn tail(&self) -> (int, int) {
        (self.tail_start as int, self.tail_end as int)
    }

    /// The two ranges lie in the block, the second before the first, and
    /// exactly their slots are occupied. The elements lie in slots or in
    /// none.
    pub open spec fn wf(&self) -> bool {
        &&& self.slots().len() == 0 || self.weightless().len() == 0
        &&& 0 <= self.tail().0 <= self.tail().1 <= self.head().0 <= self.head().1
            <= self.slots().len()
        &&& forall|p: int|
            0 <= p < self.slots().len() ==> ((#[trigger] self.slots()[p]).is_some() <==> (
            self.head().0 <= p < self.head().1 || self.tail().0 <= p < self.tail().1))
    }

    /// The elements that are still to come, front to back.
    pub open spec fn view(&self) -> Seq<T> {
        held(self.slots().subrange(self.head().0, self.head().1)) + held(
            self.slots().subrange(self.tail().0, self.tail().1),
        ) + self.weightless()
    }

    /// The next element from the front; `None` once all have been given.
    pub fn next(&mut self) -> (item: Option<T>)
        requires
            old(self).wf(),
        ensures
            final(self).wf(),
            (item, final(self)@) == popped_front(old(self)@),
            final(self).slots().len() == old(self).slots().len(),
    {
        if self.head_start < self.head_end {
            let at = self.head_start;
            self.head_start = self.head_start + 1;
            let item = self.block.take(at);
            assert(self@ =~= old(self)@.drop_first());
            Some(item)
        } else if self.tail_start < self.tail_end {
            let at = self.tail_start;
            self.tail_start = self.tail_start + 1;
            let item = self.block.take(at);
            assert(self@ =~= old(self)@.drop_first());
            Some(item)
        } else if self.weightless.len() > 0 {
            let item = self.weightless.remove(0);
            assert(self@ =~= old(self)@.drop_first());
            Some(item)
        } else {
            assert(self@ =~= Seq::<T>::empty());
            None
        }
    }

    /// The next element from the back; `None` once all have been given.
    pub fn next_back(&mut self) -> (item: Option<T>)
        requires
            old(self).wf(),
        ensures
            final(self).wf(),
            (item, final(self)@) == popped_back(old(self)@),
            final(self).slots().len() == old(self).slots().len(),
    {
        if self.weightless.len() > 0 {
            let item = self.weightless.pop();
            assert(self@ =~= old(self)@.drop_last());
            item
        } else if self.tail_start < self.tail_end {
            self.tail_end = self.tail_end - 1;
            let item = self.block.take(self.tail_end);
            assert(self@ =~= old(self)@.drop_last());
            Some(item)
        } else if self.head_start < self.head_end {
            self.head_end = self.head_end - 1;
            let item = self.block.take(self.head_end);
            assert(self@ =~= old(self)@.drop_last());
            Some(item)
        } else {
            assert(self@ =~= Seq::<T>::empty());
            None
        }
    }

    /// How many elements are still to come: the lower bound, and the upper
    /// bound, which is the same.
    pub fn size_hint(&self) -> (bounds: (usize, Option<usize>))
        requires
            self.wf(),
        ensures
            bounds.0 == self@.len(),
            bounds.1 == Some(bounds.0),
    {
        proof {
            self.block.lemma_capacity_bounded();
        }
        let left = (self.head_end - self.head_start) + (self.tail_end - self.tail_start)
            + self.weightless.len();
        (left, Some(left))
    }
}

impl<T> MoveItems<T> {
    /// Drops the elements that are still to come and gives the block back.
    /// Dropping the traversal does the same.
    pub fn release(self)
        requires
            self.wf(),
    {
        let mut items = self;
        let mut left = items.size_hint().0;
        while left > 0
            invariant
                items.wf(),
                left == items@.len(),
            decreases left,
        {
            items.next();
            left = left - 1;
        }
        let MoveItems {
            block,
            head_start: _,
            head_end: _,
            tail_start: _,
            tail_end: _,
            weightless: _,
        } = items;
        if block.capacity() != 0 {
            deallocate(block);
        }
    }
}

/// A traversal that owns a ring buffer and pops its elements, from either
/// end.
pub struct SafeMoveItems<T> {
    /// The ring buffer that is emptied.
    pub ringbuf: RingBuf<T>,
}

impl<T> SafeMoveItems<T> {
    /// The ring buffer keeps its layout.
    pub open spec fn wf(&self) -> bool {
        self.ringbuf.wf()
    }

    /// The elements that are still to come, front to back.
    pub open spec fn view(&self) -> Seq<T> {
        self.ringbuf@
    }

    /// The next element from the front; `None` once all have been given.
    pub fn next(&mut self) -> (item: Option<T>)
        requires
            old(self).wf(),
        ensures
            final(self).wf(),
            (item, final(self)@) == popped_front(old(self)@),
    {
        self.ringbuf.pop_front()
    }

    /// The next element from the back; `None` once all have been given.
    pub fn next_back(&mut self) -> (item: Option<T>)
        requires
            old(self).wf(),
        ensures
            final(self).wf(),
            (item, final(self)@) == popped_back(old(self)@),
    {
        self.ringbuf.pop_back()
    }

    /// How many elements are still to come: the lower bound, and the upper
    /// bound, which is the same.
    pub fn size_hint(&self) -> (bounds: (usize, Option<usize>))
        requires
            self.wf(),
        ensures
            bounds.0 == self@.len(),
            bounds.1 == Some(bounds.0),
    {
        (self.ringbuf.len(), Some(self.ringbuf.len()))
    }
}

impl<T> RingBuf<T> {
    /// A traversal that takes the block over and moves the elements out,
    /// front to back.
    pub fn move_iter(self) -> (items: MoveItems<T>)
        requires
            self.wf(),
        ensures
            items.wf(),
            items@ == self@,
    {
        let (first, second) = self.get_spans();
        proof {
            self.lemma_capacity_bounded();
            if !is_weightless::<T>() {
                lemma_spans_cover(self.slots(), self.lo as int, self.len as int);
            }
        }
        let RingBuf { lo: _, len: _, block, weightless } = self;
        if core::mem::size_of::<T>() == 0 {
            let items = MoveItems {
                block,
                head_start: 0,
                head_end: 0,
                tail_start: 0,
                tail_end: 0,
                weightless,
            };
            assert(items@ =~= self@);
            items
        } else {
            let items = MoveItems {
                block,
                head_start: first.start,
                head_end: first.start + first.len,
                tail_start: second.start,
                tail_end: second.start + second.len,
                weightless,
            };
            assert(items@ =~= self@);
            items
        }
    }
}

} // verus!
