use crate::ringbuf::RingBuf;
use vstd::prelude::*;
use vstd::string::*;

verus! {

/// The first `n` of `parts`, each after the first with a comma and a space
/// before it.
pub open spec fn joined(parts: Seq<Seq<char>>, n: int) -> Seq<char>
    decreases n,
{
    if n <= 0 {
        Seq::empty()
    } else if n == 1 {
        parts[0]
    } else {
        joined(parts, n - 1) + ", "@ + parts[n - 1]
    }
}

/// `parts` with commas between them, in square brackets.
pub open spec fn bracketed(parts: Seq<Seq<char>>) -> Seq<char> {
    "["@ + joined(parts, parts.len() as int) + "]"@
}

/// Whether `parts` holds, position by position, a text that the element's
/// `Display` gives for what `items` holds.
pub open spec fn shown_as<T: core::fmt::Display>(items: Seq<T>, parts: Seq<String>) -> bool {
    &&& parts.len() == items.len()
    &&& forall|i: int|
        0 <= i < items.len() ==> to_string_from_display_ensures::<T>(&items[i], #[trigger] parts[i])
}

/// The texts that strings hold.
pub open spec fn texts(parts: Seq<String>) -> Seq<Seq<char>> {
    Seq::new(parts.len(), |i: int| parts[i]@)
}

impl<T: core::fmt::Display> RingBuf<T> {
    /// The elements as text, front to back, with commas between them and in
    /// square brackets. Each element is shown as its `Display` shows it.
    pub fn to_string(&self) -> (text: String)
        requires
            self.wf(),
        ensures
            exists|parts: Seq<String>|
                #[trigger] shown_as(self@, parts) && text@ == bracketed(texts(parts)),
    {
        let mut text = String::from_str("[");
        let ghost mut parts: Seq<String> = Seq::empty();
        let len = self.len();
        let mut i: usize = 0;
        while i < len
            invariant
                self.wf(),
                i <= len,
                len == self@.len(),
                parts.len() == i,
                forall|j: int|
                    0 <= j < i ==> to_string_from_display_ensures::<T>(
                        &self@[j],
                        #[trigger] parts[j],
                    ),
                text@ == "["@ + joined(texts(parts), i as int),
            decreases len - i,
        {
            if i != 0 {
                text.append(", ");
            }
            let part = self.get(i).to_string();
            text.append(part.as_str());
            proof {
                let before = parts;
                parts = parts.push(part);
                lemma_joined_prefix(texts(before), texts(parts), i as int);
                assert(text@ =~= "["@ + joined(texts(parts), i + 1));
            }
            i = i + 1;
        }
        text.append("]");
        proof {
            assert(shown_as(self@, parts));
            assert(text@ =~= bracketed(texts(parts)));
        }
        text
    }
}

/// Joining the first `n` parts looks at the first `n` parts only.
pub proof fn lemma_joined_prefix(a: Seq<Seq<char>>, b: Seq<Seq<char>>, n: int)
    requires
        0 <= n <= a.len(),
        n <= b.len(),
        forall|i: int| 0 <= i < n ==> a[i] == b[i],
    ensures
        joined(a, n) == joined(b, n),
    decreases n,
{
    if n > 1 {
        lemma_joined_prefix(a, b, n - 1);
    }
}

} // verus!
