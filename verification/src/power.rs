use vstd::arithmetic::power2::is_pow2;
use vstd::prelude::*;

verus! {

/// `p` doubled until it is `n` at least.
pub open spec fn doubled_until(p: int, n: int) -> int
    decreases (if n > p { n - p } else { 0 }),
{
    if p <= 0 || p >= n {
        p
    } else {
        doubled_until(2 * p, n)
    }
}

/// The smallest power of two that is `n` at least.
pub open spec fn spec_next_power_of_two(n: int) -> int {
    doubled_until(1, n)
}

/// Capacity of a ring buffer of capacity `cap` after room for `n`
/// elements has been reserved.
pub open spec fn reserved(cap: int, n: int) -> int {
    if spec_next_power_of_two(n) > cap {
        spec_next_power_of_two(n)
    } else {
        cap
    }
}

/// Doubling a power of two until it reaches `n` gives a power of two that is
/// `n` at least, and under `2 * n` where a doubling was needed.
pub proof fn lemma_doubled_until(p: int, n: int)
    requires
        is_pow2(p),
    ensures
        is_pow2(doubled_until(p, n)),
        doubled_until(p, n) >= n,
        doubled_until(p, n) >= p,
        p < n ==> doubled_until(p, n) < 2 * n,
    decreases (if n > p { n - p } else { 0 }),
{
    reveal(is_pow2);
    if p < n {
        assert(is_pow2(2 * p)) by {
            assert((2 * p) / 2 == p);
        }
        lemma_doubled_until(2 * p, n);
    }
}

/// `spec_next_power_of_two(n)` is a power of two, is `n` at least, and no
/// smaller power of two is: half of it is under `n`.
pub proof fn lemma_next_power_of_two(n: int)
    ensures
        is_pow2(spec_next_power_of_two(n)),
        spec_next_power_of_two(n) >= n,
        spec_next_power_of_two(n) >= 1,
        n > 1 ==> spec_next_power_of_two(n) < 2 * n,
        n <= 1 ==> spec_next_power_of_two(n) == 1,
{
    assert(is_pow2(1)) by {
        reveal(is_pow2);
    }
    lemma_doubled_until(1, n);
}

/// The smallest power of two that is `n` at least.
pub fn next_power_of_two(n: usize) -> (p: usize)
    requires
        spec_next_power_of_two(n as int) <= usize::MAX,
    ensures
        p == spec_next_power_of_two(n as int),
{
    let mut p: usize = 1;
    assert(is_pow2(1)) by {
        reveal(is_pow2);
    }
    while p < n
        invariant
            p >= 1,
            is_pow2(p as int),
            doubled_until(p as int, n as int) == spec_next_power_of_two(n as int),
            spec_next_power_of_two(n as int) <= usize::MAX,
        decreases (if n > p { n - p } else { 0 }),
    {
        proof {
            reveal(is_pow2);
            assert(is_pow2(2 * p)) by {
                assert((2 * p) / 2 == p);
            }
            lemma_doubled_until(2 * p, n as int);
        }
        p = p * 2;
    }
    p
}

} // verus!
