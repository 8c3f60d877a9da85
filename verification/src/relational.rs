use crate::model::shared_len;
use crate::ringbuf::RingBuf;
use core::cmp::Ordering;
use vstd::prelude::*;
use vstd::std_specs::cmp::{OrdSpec, PartialEqSpec, PartialOrdSpec};

verus! {

/// Equality of two sequences by the elements' own equality: the same length,
/// and equal elements at each position.
pub open spec fn seq_eq<T: PartialEq>(a: Seq<T>, b: Seq<T>) -> bool {
    &&& a.len() == b.len()
    &&& forall|i: int| 0 <= i < a.len() ==> (#[trigger] a[i]).eq_spec(&b[i])
}

/// The order of two lengths.
pub open spec fn order_of_lengths(n: nat, m: nat) -> Ordering {
    if n < m {
        Ordering::Less
    } else if n == m {
        Ordering::Equal
    } else {
        Ordering::Greater
    }
}

/// The lexicographic order of two sequences from position `from` on, by the
/// elements' partial order: the first pair that is not equal decides; where
/// one sequence ends first, the shorter is less.
pub open spec fn lex_partial_order_from<T: PartialOrd>(a: Seq<T>, b: Seq<T>, from: int) -> Option<
    Ordering,
>
    decreases a.len() - from,
{
    if from < 0 || from >= a.len() || from >= b.len() {
        Some(order_of_lengths(a.len(), b.len()))
    } else {
        match a[from].partial_cmp_spec(&b[from]) {
            Some(Ordering::Equal) => lex_partial_order_from(a, b, from + 1),
            decided => decided,
        }
    }
}

/// The lexicographic order of two sequences by the elements' partial order.
pub open spec fn lex_partial_order<T: PartialOrd>(a: Seq<T>, b: Seq<T>) -> Option<Ordering> {
    lex_partial_order_from(a, b, 0)
}

/// The lexicographic order of two sequences from position `from` on, by the
/// elements' total order.
pub open spec fn lex_order_from<T: Ord>(a: Seq<T>, b: Seq<T>, from: int) -> Ordering
    decreases a.len() - from,
{
    if from < 0 || from >= a.len() || from >= b.len() {
        order_of_lengths(a.len(), b.len())
    } else {
        match a[from].cmp_spec(&b[from]) {
            Ordering::Equal => lex_order_from(a, b, from + 1),
            decided => decided,
        }
    }
}

/// The lexicographic order of two sequences by the elements' total order.
pub open spec fn lex_order<T: Ord>(a: Seq<T>, b: Seq<T>) -> Ordering {
    lex_order_from(a, b, 0)
}

/// The order of two lengths.
pub fn compare_lengths(n: usize, m: usize) -> (order: Ordering)
    ensures
        n < m ==> order == Ordering::Less,
        n == m ==> order == Ordering::Equal,
        n > m ==> order == Ordering::Greater,
{
    if n < m {
        Ordering::Less
    } else if n == m {
        Ordering::Equal
    } else {
        Ordering::Greater
    }
}

impl<T: PartialEq> RingBuf<T> {
    /// Whether the two ring buffers hold equal elements in the same order.
    /// Where they start in their blocks, and how large the blocks are, does
    /// not count.
    pub fn eq(&self, other: &RingBuf<T>) -> (equal: bool)
        requires
            self.wf(),
            other.wf(),
        ensures
            T::obeys_eq_spec() ==> equal == seq_eq(self@, other@),
    {
        if self.len() != other.len() {
            return false;
        }
        let len = self.len();
        let mut i: usize = 0;
        while i < len
            invariant
                self.wf(),
                other.wf(),
                i <= len,
                len == self@.len(),
                len == other@.len(),
                T::obeys_eq_spec() ==> forall|j: int|
                    0 <= j < i ==> (#[trigger] self@[j]).eq_spec(&other@[j]),
            decreases len - i,
        {
            if !self.get(i).eq(other.get(i)) {
                return false;
            }
            i = i + 1;
        }
        true
    }
}

impl<T: PartialOrd> RingBuf<T> {
    /// The lexicographic order of the two ring buffers by the elements'
    /// partial order: the first pair of elements that is not equal decides,
    /// and where all pairs are equal the shorter ring buffer is less.
    pub fn partial_cmp(&self, other: &RingBuf<T>) -> (order: Option<Ordering>)
        requires
            self.wf(),
            other.wf(),
        ensures
            T::obeys_partial_cmp_spec() ==> order == lex_partial_order(self@, other@),
    {
        let n = self.len();
        let m = other.len();
        let mut i: usize = 0;
        let ghost mut at: int = 0;
        while i < n && i < m
            invariant
                self.wf(),
                other.wf(),
                at == i,
                i <= n,
                i <= m,
                n == self@.len(),
                m == other@.len(),
                T::obeys_partial_cmp_spec() ==> lex_partial_order_from(self@, other@, at)
                    == lex_partial_order(self@, other@),
            decreases n - i,
        {
            let decided = self.get(i).partial_cmp(other.get(i));
            match decided {
                Some(Ordering::Equal) => {},
                _ => {
                    return decided;
                },
            }
            i = i + 1;
            proof {
                at = at + 1;
            }
        }
        Some(compare_lengths(n, m))
    }
}

impl<T: Ord> RingBuf<T> {
    /// The lexicographic order of the two ring buffers by the elements'
    /// total order.
    pub fn cmp(&self, other: &RingBuf<T>) -> (order: Ordering)
        requires
            self.wf(),
            other.wf(),
        ensures
            T::obeys_cmp_spec() ==> order == lex_order(self@, other@),
    {
        let n = self.len();
        let m = other.len();
        let mut i: usize = 0;
        let ghost mut at: int = 0;
        while i < n && i < m
            invariant
                self.wf(),
                other.wf(),
                at == i,
                i <= n,
                i <= m,
                n == self@.len(),
                m == other@.len(),
                T::obeys_cmp_spec() ==> lex_order_from(self@, other@, at) == lex_order(
                    self@,
                    other@,
                ),
            decreases n - i,
        {
            let decided = self.get(i).cmp(other.get(i));
            match decided {
                Ordering::Equal => {},
                _ => {
                    return decided;
                },
            }
            i = i + 1;
            proof {
                at = at + 1;
            }
        }
        compare_lengths(n, m)
    }
}

/// Where all pairs of elements before position `at` are equal, the order
/// from the start is the order from `at` on.
pub proof fn lemma_lex_order_skips_equal<T: Ord>(a: Seq<T>, b: Seq<T>, at: int)
    requires
        0 <= at <= a.len(),
        at <= b.len(),
        forall|i: int| 0 <= i < at ==> (#[trigger] a[i]).cmp_spec(&b[i]) == Ordering::Equal,
    ensures
        lex_order(a, b) == lex_order_from(a, b, at),
    decreases at,
{
    if at > 0 {
        lemma_lex_order_skips_equal(a, b, at - 1);
    }
}

/// The order of two ring buffers is the order of the sequences that they
/// hold front to back, which is the lexicographic one: the first position at
/// which the elements are not equal decides.
pub proof fn lemma_lex_order_decided<T: Ord>(a: Seq<T>, b: Seq<T>, at: int)
    requires
        0 <= at < a.len(),
        at < b.len(),
        forall|i: int| 0 <= i < at ==> (#[trigger] a[i]).cmp_spec(&b[i]) == Ordering::Equal,
        a[at].cmp_spec(&b[at]) != Ordering::Equal,
    ensures
        lex_order(a, b) == a[at].cmp_spec(&b[at]),
{
    lemma_lex_order_skips_equal(a, b, at);
}

/// Where the elements are equal at every position that both sequences have,
/// the shorter sequence is less, and sequences of one length are equal.
pub proof fn lemma_lex_order_of_prefix<T: Ord>(a: Seq<T>, b: Seq<T>)
    requires
        forall|i: int|
            0 <= i < a.len() && i < b.len() ==> (#[trigger] a[i]).cmp_spec(&b[i])
                == Ordering::Equal,
    ensures
        lex_order(a, b) == order_of_lengths(a.len(), b.len()),
{
    lemma_lex_order_skips_equal(a, b, shared_len(a, b));
}

} // verus!
