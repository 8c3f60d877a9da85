use super::{RingBuf, MINIMUM_CAPACITY};
use crate::model::{
    grown, grown_until, held, is_clone_of, is_weightless, lemma_growth_representable,
    lemma_grown_until_bound, lemma_grown_until_step, lemma_representable_smaller, lemma_spans_cover, occupied,
    representable, vacant,
};
use crate::power::{lemma_next_power_of_two, next_power_of_two, spec_next_power_of_two};
use crate::storage::{allocate, is_representable, Block};
use vstd::prelude::*;
use vstd::std_specs::iter::IteratorSpec;

verus! {

/// The lower bound of `Iterator::size_hint`: the number of items that the
/// iterator says it will give at least. Nothing is claimed of it.
#[verifier::external_body]
fn size_hint_lower<I: Iterator>(iterator: &I) -> (lower: usize) {
    iterator.size_hint().0
}

/// `Vec::capacity`: the number of elements that the `Vec` has room for,
/// which is its length at least.
#[verifier::external_body]
fn vec_capacity<T>(vec: &Vec<T>) -> (capacity: usize)
    ensures
        capacity >= vec@.len(),
{
    vec.capacity()
}

impl<T> RingBuf<T> {
    /// A ring buffer of `capacity` slots that holds the elements of `vec` in
    /// their order, from slot 0 on.
    pub fn from_vec_with_capacity(vec: Vec<T>, capacity: usize) -> (ring: RingBuf<T>)
        requires
            capacity >= vec@.len(),
            representable::<T>(capacity as int),
        ensures
            ring.wf(),
            ring@ == vec@,
            ring.spec_capacity() == if is_weightless::<T>() {
                usize::MAX
            } else {
                capacity
            },
            !is_weightless::<T>() ==> ring.slots() == occupied(vec@) + vacant::<T>(
                (capacity - vec@.len()) as nat,
            ),
            ring.spec_lo() == 0,
    {
        let len = vec.len();
        if core::mem::size_of::<T>() == 0 {
            RingBuf { lo: 0, len, block: allocate(0), weightless: vec }
        } else {
            let ring = RingBuf {
                lo: 0,
                len,
                block: Block::from_vec(vec, capacity),
                weightless: Vec::new(),
            };
            assert(ring@ =~= vec@);
            ring
        }
    }

    /// A ring buffer that holds the elements of `vec` in their order, with
    /// the room that `vec` had.
    pub fn from_vec(vec: Vec<T>) -> (ring: RingBuf<T>)
        requires
            representable::<T>(vec@.len() as int),
        ensures
            ring.wf(),
            ring@ == vec@,
            ring.spec_capacity() >= vec@.len(),
            ring.spec_lo() == 0,
    {
        let capacity = vec_capacity(&vec);
        if is_representable::<T>(capacity) {
            RingBuf::from_vec_with_capacity(vec, capacity)
        } else {
            let len = vec.len();
            RingBuf::from_vec_with_capacity(vec, len)
        }
    }

    /// The elements in their order, as a `Vec`. They are brought to the
    /// start of the block first.
    pub fn into_vec(self) -> (vec: Vec<T>)
        requires
            self.wf(),
        ensures
            vec@ == self@,
    {
        let mut ring = self;
        ring.reset();
        proof {
            if !is_weightless::<T>() {
                lemma_spans_cover(ring.slots(), 0, ring.len as int);
                assert(ring.slots().subrange(0, 0) =~= Seq::<Option<T>>::empty());
                assert(held(ring.slots().subrange(0, ring.len as int)) =~= ring@);
            }
        }
        let RingBuf { lo: _, len, block, weightless } = ring;
        if core::mem::size_of::<T>() == 0 {
            weightless
        } else {
            block.into_vec(len)
        }
    }

    /// Appends the items of `iterator` in their order, each by `push_back`.
    pub fn push_all<I: Iterator<Item = T>>(&mut self, iterator: I)
        requires
            old(self).wf(),
            iterator.obeys_prophetic_iter_laws(),
            iterator.decrease() is Some,
            iterator.initial_value_relation(&iterator),
            grown_until(
                old(self).spec_capacity() as int,
                (old(self)@.len() + iterator.remaining().len()) as int,
            ) <= usize::MAX,
            representable::<T>(
                grown_until(
                    old(self).spec_capacity() as int,
                    (old(self)@.len() + iterator.remaining().len()) as int,
                ),
            ),
        ensures
            final(self).wf(),
            final(self)@ == old(self)@ + iterator.remaining(),
            final(self).spec_capacity() == grown_until(
                old(self).spec_capacity() as int,
                (old(self)@.len() + iterator.remaining().len()) as int,
            ),
            final(self).spec_lo() == if old(self)@.len() + iterator.remaining().len() <= old(
                self,
            ).spec_capacity() {
                old(self).spec_lo()
            } else {
                0
            },
    {
        let ghost all = iterator.remaining();
        let ghost cap = self.spec_capacity() as int;
        let ghost start = self@.len() as int;
        proof {
            lemma_grown_until_bound(cap, start + all.len());
        }
        for item in it: iterator
            invariant
                self.wf(),
                it.iter.obeys_prophetic_iter_laws(),
                it.iter.decrease() is Some,
                it.seq() == all,
                cap == old(self).spec_capacity(),
                start == old(self)@.len(),
                self@ == old(self)@ + all.subrange(0, it.index()),
                grown_until(self.spec_capacity() as int, start + all.len()) == grown_until(
                    cap,
                    start + all.len(),
                ),
                start + all.len() <= grown_until(cap, start + all.len()) <= usize::MAX,
                representable::<T>(grown_until(cap, start + all.len())),
                self.spec_capacity() == grown_until(cap, start + it.index()),
                self.spec_lo() == if start + it.index() <= cap {
                    old(self).spec_lo()
                } else {
                    0
                },
        {
            proof {
                lemma_grown_until_step(cap, start + it.index());
                lemma_grown_until_bound(grown(self.spec_capacity() as int), start + all.len());
                if self@.len() == self.spec_capacity() {
                    lemma_representable_smaller::<T>(
                        grown(self@.len() as int),
                        grown_until(cap, start + all.len()),
                    );
                }
            }
            self.push_back(item);
            assert(self@ =~= old(self)@ + all.subrange(0, it.index() + 1));
        }
        assert(all.subrange(0, all.len() as int) =~= all);
    }

    /// Makes room for `lower` elements more than there are, as
    /// `reserve_additional` does, where the room asked for can be counted;
    /// nothing happens where it cannot.
    pub fn reserve_hint(&mut self, lower: usize)
        requires
            old(self).wf(),
        ensures
            final(self).wf(),
            final(self)@ == old(self)@,
            final(self).spec_capacity() == if old(self).spec_capacity() - old(self)@.len()
                < lower && old(self)@.len() + lower <= usize::MAX / 2 && representable::<T>(
                spec_next_power_of_two(old(self)@.len() + lower),
            ) {
                spec_next_power_of_two(old(self)@.len() + lower)
            } else {
                old(self).spec_capacity() as int
            },
            final(self).spec_lo() == if old(self).spec_capacity() - old(self)@.len() < lower
                && old(self)@.len() + lower <= usize::MAX / 2 && representable::<T>(
                spec_next_power_of_two(old(self)@.len() + lower),
            ) {
                0
            } else {
                old(self).spec_lo()
            },
    {
        if self.capacity() - self.len < lower && self.len <= usize::MAX / 2 && lower
            <= usize::MAX / 2 - self.len {
            proof {
                lemma_next_power_of_two(self.len + lower);
            }
            if is_representable::<T>(next_power_of_two(self.len + lower)) {
                self.reserve_additional(lower);
            }
        }
    }

    /// Appends the items of `iterator` in their order. Room is made first
    /// for as many as the iterator says it will give at least. Whatever it
    /// says, every growth can be counted while a block of twice the
    /// elements can.
    pub fn extend<I: Iterator<Item = T>>(&mut self, iterator: I)
        requires
            old(self).wf(),
            iterator.obeys_prophetic_iter_laws(),
            iterator.decrease() is Some,
            iterator.initial_value_relation(&iterator),
            is_weightless::<T>() ==> old(self)@.len() + iterator.remaining().len()
                <= usize::MAX,
            !is_weightless::<T>() ==> representable::<T>(
                2 * (old(self)@.len() + iterator.remaining().len()) as int,
            ),
        ensures
            final(self).wf(),
            final(self)@ == old(self)@ + iterator.remaining(),
            final(self).spec_capacity() >= old(self).spec_capacity(),
    {
        let lower = size_hint_lower(&iterator);
        self.reserve_hint(lower);
        proof {
            self.lemma_capacity_bounded();
            lemma_next_power_of_two(old(self)@.len() + lower);
            lemma_grown_until_bound(
                self.spec_capacity() as int,
                (self@.len() + iterator.remaining().len()) as int,
            );
            if !is_weightless::<T>() {
                lemma_growth_representable::<T>(
                    self.spec_capacity() as int,
                    (self@.len() + iterator.remaining().len()) as int,
                    2 * (self@.len() + iterator.remaining().len()) as int,
                );
            }
        }
        self.push_all(iterator);
    }

    /// A ring buffer that holds the items of `iterator` in their order. It is
    /// made with room for as many as the iterator says it will give at least,
    /// where a block of that many can be counted, and grows from there as
    /// `push_back` grows it.
    pub fn from_iter<I: Iterator<Item = T>>(iterator: I) -> (ring: RingBuf<T>)
        requires
            iterator.obeys_prophetic_iter_laws(),
            iterator.decrease() is Some,
            iterator.initial_value_relation(&iterator),
            is_weightless::<T>() ==> iterator.remaining().len() <= usize::MAX,
            !is_weightless::<T>() ==> representable::<T>(
                grown(iterator.remaining().len() as int),
            ),
        ensures
            ring.wf(),
            ring@ == iterator.remaining(),
            ring.spec_capacity() >= MINIMUM_CAPACITY,
    {
        let lower = size_hint_lower(&iterator);
        let least = if lower < MINIMUM_CAPACITY {
            MINIMUM_CAPACITY
        } else {
            lower
        };
        proof {
            if !is_weightless::<T>() {
                lemma_representable_smaller::<T>(
                    MINIMUM_CAPACITY as int,
                    grown(iterator.remaining().len() as int),
                );
            }
        }
        let mut ring = if is_representable::<T>(least) {
            RingBuf::with_capacity(lower)
        } else {
            RingBuf::with_capacity(0)
        };
        proof {
            ring.lemma_capacity_bounded();
            if !is_weightless::<T>() {
                lemma_growth_representable::<T>(
                    ring.spec_capacity() as int,
                    iterator.remaining().len() as int,
                    grown(iterator.remaining().len() as int),
                );
            }
        }
        ring.push_all(iterator);
        assert(ring@ =~= iterator.remaining());
        ring
    }
}

impl<T: Clone> RingBuf<T> {
    /// A ring buffer of its own that holds a clone of each element, in a
    /// block made for that many, from slot 0 on.
    pub fn clone(&self) -> (ring: RingBuf<T>)
        requires
            self.wf(),
            representable::<T>(MINIMUM_CAPACITY as int),
        ensures
            ring.wf(),
            is_clone_of(self@, ring@),
            ring.spec_capacity() == if is_weightless::<T>() {
                usize::MAX as nat
            } else if self@.len() < MINIMUM_CAPACITY {
                MINIMUM_CAPACITY as nat
            } else {
                self@.len()
            },
            ring.spec_lo() == 0,
    {
        proof {
            if !is_weightless::<T>() {
                lemma_representable_smaller::<T>(self@.len() as int, self.slots().len() as int);
            }
        }
        let mut ring: RingBuf<T> = RingBuf::with_capacity(self.len);
        let (slice1, slice2) = self.as_slices();
        assert(ring@.len() == 0);
        let n1 = slice1.len();
        let n2 = slice2.len();
        while ring.len < n1
            invariant
                ring.wf(),
                ring.spec_lo() == 0,
                ring@.len() == ring.spec_len() <= n1,
                slice1.wf(),
                n1 == slice1@.len(),
                n1 + n2 == self@.len(),
                ring.spec_capacity() >= self@.len(),
                ring.spec_capacity() == if is_weightless::<T>() {
                    usize::MAX as nat
                } else if self@.len() < MINIMUM_CAPACITY {
                    MINIMUM_CAPACITY as nat
                } else {
                    self@.len()
                },
                forall|j: int| 0 <= j < ring@.len() ==> cloned::<T>(slice1@[j], #[trigger] ring@[j]),
            decreases n1 - ring.spec_len(),
        {
            let len = ring.len;
            let ghost before = ring@;
            let copy = slice1.get(len).clone();
            if core::mem::size_of::<T>() == 0 {
                ring.weightless.push(copy);
            } else {
                ring.block.write(len, copy);
            }
            ring.len = ring.len + 1;
            assert(ring@ =~= before.push(copy));
        }
        while ring.len < n1 + n2
            invariant
                ring.wf(),
                ring.spec_lo() == 0,
                n1 <= ring.spec_len() <= n1 + n2,
                ring@.len() == ring.spec_len(),
                slice2.wf(),
                n1 == slice1@.len(),
                n2 == slice2@.len(),
                n1 + n2 == self@.len(),
                ring.spec_capacity() >= self@.len(),
                ring.spec_capacity() == if is_weightless::<T>() {
                    usize::MAX as nat
                } else if self@.len() < MINIMUM_CAPACITY {
                    MINIMUM_CAPACITY as nat
                } else {
                    self@.len()
                },
                forall|j: int| 0 <= j < n1 ==> cloned::<T>(slice1@[j], #[trigger] ring@[j]),
                forall|j: int|
                    n1 <= j < ring@.len() ==> cloned::<T>(slice2@[j - n1], #[trigger] ring@[j]),
            decreases n1 + n2 - ring.spec_len(),
        {
            let len = ring.len;
            let ghost before = ring@;
            let copy = slice2.get(len - n1).clone();
            if core::mem::size_of::<T>() == 0 {
                ring.weightless.push(copy);
            } else {
                ring.block.write(len, copy);
            }
            ring.len = ring.len + 1;
            assert(ring@ =~= before.push(copy));
        }
        assert forall|i: int| 0 <= i < self@.len() implies cloned::<T>(
            #[trigger] self@[i],
            ring@[i],
        ) by {
            if i < n1 {
                assert(self@[i] == slice1@[i]);
            } else {
                assert(self@[i] == slice2@[i - n1]);
            }
        }
        ring
    }

    /// Makes this ring buffer hold a clone of each element of `source`.
    /// Elements beyond the length of `source` are dropped, those that stay
    /// are overwritten in their slots, and the rest is appended after room
    /// for it has been made.
    pub fn clone_from(&mut self, source: &RingBuf<T>)
        requires
            old(self).wf(),
            source.wf(),
            source@.len() > old(self).spec_capacity() ==> spec_next_power_of_two(
                source@.len() as int,
            ) <= usize::MAX && representable::<T>(spec_next_power_of_two(source@.len() as int)),
        ensures
            final(self).wf(),
            is_clone_of(source@, final(self)@),
            final(self).spec_capacity() == if source@.len() > old(self).spec_capacity() {
                spec_next_power_of_two(source@.len() as int)
            } else {
                old(self).spec_capacity() as int
            },
            final(self).spec_lo() == if source@.len() > old(self).spec_capacity() {
                0
            } else {
                old(self).spec_lo()
            },
    {
        if self.len() > source.len() {
            self.truncate(source.len());
        }
        let kept = self.len();
        let mut i: usize = 0;
        while i < kept
            invariant
                self.wf(),
                source.wf(),
                i <= kept,
                kept == self@.len(),
                kept <= source@.len(),
                self.spec_capacity() == old(self).spec_capacity(),
                self.spec_lo() == old(self).spec_lo(),
                forall|j: int| 0 <= j < i ==> cloned::<T>(#[trigger] source@[j], self@[j]),
            decreases kept - i,
        {
            let copy = source.get(i).clone();
            let place = self.get_mut(i);
            *place = copy;
            i = i + 1;
        }
        proof {
            self.lemma_capacity_bounded();
        }
        self.reserve_additional(source.len() - kept);
        let mut k: usize = kept;
        while k < source.len()
            invariant
                self.wf(),
                source.wf(),
                kept <= k <= source@.len(),
                k == self@.len(),
                self.spec_capacity() >= source@.len(),
                self.spec_capacity() == if source@.len() > old(self).spec_capacity() {
                    spec_next_power_of_two(source@.len() as int)
                } else {
                    old(self).spec_capacity() as int
                },
                self.spec_lo() == if source@.len() > old(self).spec_capacity() {
                    0
                } else {
                    old(self).spec_lo()
                },
                forall|j: int| 0 <= j < k ==> cloned::<T>(#[trigger] source@[j], self@[j]),
            decreases source@.len() - k,
        {
            let copy = source.get(k).clone();
            self.push_back(copy);
            k = k + 1;
        }
    }
}

} // verus!
