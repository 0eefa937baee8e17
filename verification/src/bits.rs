//! Powers of two and alignment.

use vstd::arithmetic::power2;
use vstd::bits;
use vstd::prelude::*;

verus! {

/// `n` is a power of two.
pub open spec fn power_of_two(n: int) -> bool {
    exists|k: nat| n == #[trigger] power2::pow2(k)
}

/// `n` and one more, or `n` if there is no more.
pub open spec fn one_more(n: u64) -> u64 {
    if n < u64::MAX {
        (n + 1) as u64
    } else {
        n
    }
}

/// `p` is the largest power of two that is at most `n`.
pub open spec fn largest_power_up_to(p: int, n: int) -> bool {
    &&& power_of_two(p)
    &&& p <= n
    &&& forall|q: int| #[trigger] power_of_two(q) && q <= n ==> q <= p
}

/// `p` is the smallest power of two that is at least `n`.
pub open spec fn smallest_power_from(p: int, n: int) -> bool {
    &&& power_of_two(p)
    &&& n <= p
    &&& forall|q: int| #[trigger] power_of_two(q) && n <= q ==> p <= q
}

/// Powers of two are ordered as their exponents are.
proof fn lemma_pow2_order(j: nat, k: nat)
    ensures
        j < k ==> power2::pow2(j) < power2::pow2(k),
        power2::pow2(j) < power2::pow2(k) ==> j < k,
        power2::pow2(k) > 0,
{
    power2::lemma_pow2_pos(k);
    power2::lemma_pow2_pos(j);
    if j < k {
        power2::lemma_pow2_strictly_increases(j, k);
    } else if k < j {
        power2::lemma_pow2_strictly_increases(k, j);
    }
}

/// Nothing between `power2::pow2(k)` and its double is a power of two.
proof fn lemma_no_power_between(k: nat, q: int)
    requires
        power2::pow2(k) < q < 2 * power2::pow2(k),
    ensures
        !power_of_two(q),
{
    if power_of_two(q) {
        let j = choose|j: nat| q == #[trigger] power2::pow2(j);
        lemma_pow2_order(k, j);
        power2::lemma_pow2_unfold(k + 1);
        lemma_pow2_order(j, k + 1);
    }
}

/// A power of two at or above `power2::pow2(k)` is `power2::pow2(k)` or at least its double.
proof fn lemma_next_power(k: nat, q: int)
    requires
        power_of_two(q),
        power2::pow2(k) < q,
    ensures
        2 * power2::pow2(k) <= q,
{
    if q < 2 * power2::pow2(k) {
        lemma_no_power_between(k, q);
    }
}

/// The double of a power of two is one.
pub proof fn double_is_power(p: int)
    requires
        power_of_two(p),
    ensures
        power_of_two(2 * p),
        p > 0,
{
    let k = choose|k: nat| p == #[trigger] power2::pow2(k);
    power2::lemma_pow2_pos(k);
    power2::lemma_pow2_unfold(k + 1);
    assert(2 * p == power2::pow2(k + 1));
}

/// Largest power of two that is at most `n`, or 0 for 0. This is the capacity of
/// the ring that fits a payload of `n` bytes.
pub fn prev_power_of_two(n: usize) -> (p: usize)
    ensures
        n == 0 ==> p == 0,
        n > 0 ==> largest_power_up_to(p as int, n as int),
{
    if n == 0 {
        return 0;
    }
    let mut p: usize = 1;
    let ghost mut k: nat = 0;
    proof {
        lemma2_pow2_zero();
    }
    while p <= n / 2
        invariant
            1 <= p <= n,
            p == power2::pow2(k),
        decreases n - p,
    {
        proof {
            power2::lemma_pow2_unfold(k + 1);
            k = k + 1;
        }
        p = p * 2;
    }
    proof {
        assert(power_of_two(p as int));
        assert forall|q: int| #[trigger] power_of_two(q) && q <= n implies q <= p by {
            if q > p {
                lemma_next_power(k, q);
            }
        }
    }
    p
}

/// Smallest power of two that is at least `n`.
pub fn next_power_of_two(n: usize) -> (p: usize)
    requires
        n <= usize::MAX / 2 + 1,
    ensures
        smallest_power_from(p as int, n as int),
{
    let mut p: usize = 1;
    let ghost mut k: nat = 0;
    proof {
        lemma2_pow2_zero();
        assert forall|q: int| #[trigger] power_of_two(q) implies 1 <= q by {
            let j = choose|j: nat| q == #[trigger] power2::pow2(j);
            power2::lemma_pow2_pos(j);
        }
    }
    while p < n
        invariant
            n <= usize::MAX / 2 + 1,
            1 <= p,
            p == power2::pow2(k),
            p < n || p == 1 || p / 2 < n,
            forall|q: int| #[trigger] power_of_two(q) && n <= q ==> p <= q,
        decreases 2 * n - p,
    {
        proof {
            power2::lemma_pow2_unfold(k + 1);
            assert forall|q: int| #[trigger] power_of_two(q) && n <= q implies 2 * p <= q by {
                lemma_next_power(k, q);
            }
            k = k + 1;
        }
        p = p * 2;
    }
    proof {
        assert(power_of_two(p as int));
    }
    p
}

/// Whether `n` is a power of two.
pub fn is_power_of_two(n: usize) -> (yes: bool)
    ensures
        yes == power_of_two(n as int),
{
    let p: usize = prev_power_of_two(n);
    proof {
        if n == 0 && power_of_two(0) {
            let j = choose|j: nat| 0 == #[trigger] power2::pow2(j);
            power2::lemma_pow2_pos(j);
        }
    }
    n != 0 && p == n
}

/// Rounds `n` up to a multiple of 64, so that every frame slot starts on a cache
/// line.
pub fn align_up_64(n: u64) -> (r: u64)
    requires
        n + 63 <= u64::MAX,
    ensures
        r == aligned_64(n as int),
{
    (n + 63) / 64 * 64
}

/// The smallest multiple of 64 that is at least `n`.
pub open spec fn aligned_64(n: int) -> int {
    (n + 63) / 64 * 64
}

/// [`aligned_64`] is a multiple of 64, at least `n`, and less than 64 above it:
/// the smallest such multiple.
pub proof fn aligned_64_is_smallest(n: int)
    requires
        0 <= n,
    ensures
        aligned_64(n) % 64 == 0,
        n <= aligned_64(n) < n + 64,
        forall|q: int| n <= q && #[trigger] (q % 64) == 0 ==> aligned_64(n) <= q,
{
}

/// The low bits of `pos` below the power of two `cap`: where position `pos` of
/// the stream lies in a ring of `cap` bytes.
pub fn masked(pos: u64, cap: usize) -> (i: usize)
    requires
        power_of_two(cap as int),
        cap <= u64::MAX,
    ensures
        i == pos as int % cap as int,
        i < cap,
{
    let ghost k = choose|k: nat| cap == #[trigger] power2::pow2(k);
    proof {
        power2::lemma_pow2_pos(k);
    }
    let mask: u64 = (cap as u64) - 1;
    proof {
        if k >= 64 {
            lemma_pow2_order(63, k);
            power2::lemma2_to64();
            power2::lemma2_to64_rest();
            lemma_pow2_order(64, k);
        }
        bits::lemma_u64_low_bits_mask_is_mod(pos, k);
        assert(bits::low_bits_mask(k) == mask);
    }
    (pos & mask) as usize
}

proof fn lemma2_pow2_zero()
    ensures
        power2::pow2(0) == 1,
{
    power2::lemma2_to64();
}

/// The powers of two are 1 and the doubles of powers of two, and nothing else.
pub proof fn powers_are_doubles(n: int)
    ensures
        power_of_two(1),
        power_of_two(n) ==> power_of_two(2 * n),
        power_of_two(n) && n != 1 ==> n % 2 == 0 && power_of_two(n / 2),
        power_of_two(n) ==> n >= 1,
{
    lemma2_pow2_zero();
    if power_of_two(n) {
        double_is_power(n);
        let k = choose|k: nat| n == #[trigger] power2::pow2(k);
        if k > 0 {
            power2::lemma_pow2_unfold(k);
            assert(n / 2 == power2::pow2((k - 1) as nat));
        }
    }
}

/// The largest power of two up to a number is the one whose double is beyond it, and the
/// smallest one from a number on is the one whose half falls short of it.
pub proof fn nearest_powers_are_within_a_double(p: int, n: int)
    ensures
        largest_power_up_to(p, n) <==> power_of_two(p) && p <= n < 2 * p,
        n >= 1 ==> (smallest_power_from(p, n) <==> power_of_two(p) && n <= p < 2 * n),
        n < 1 ==> (smallest_power_from(p, n) <==> p == 1),
{
    powers_are_doubles(p);
    if power_of_two(p) {
        let k = choose|k: nat| p == #[trigger] power2::pow2(k);
        if p <= n < 2 * p {
            assert forall|q: int| #[trigger] power_of_two(q) && q <= n implies q <= p by {
                if q > p {
                    lemma_next_power(k, q);
                }
            }
        }
        if n <= p < 2 * n {
            assert forall|q: int| #[trigger] power_of_two(q) && n <= q implies p <= q by {
                if q < p {
                    let j = choose|j: nat| q == #[trigger] power2::pow2(j);
                    lemma_next_power(j, p);
                }
            }
        }
        if largest_power_up_to(p, n) {
            assert(power_of_two(2 * p));
        }
        if smallest_power_from(p, n) && p != 1 {
            assert(power_of_two(p / 2));
        }
    }
    if n < 1 {
        assert forall|q: int| #[trigger] power_of_two(q) implies 1 <= q by {
            powers_are_doubles(q);
        }
        if smallest_power_from(p, n) {
            assert(power_of_two(1));
        }
    }
    if smallest_power_from(p, n) && n >= 1 && p == 1 {
        assert(n == 1);
    }
}

/// A count goes up by one until it cannot.
pub proof fn counts_go_up_by_one(n: u64)
    ensures
        n < u64::MAX ==> one_more(n) == n + 1,
        one_more(u64::MAX) == u64::MAX,
{
}

} // verus!
