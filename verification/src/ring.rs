//! Index arithmetic on a ring whose size is a power of two.

use vstd::prelude::*;
use vstd::arithmetic::div_mod::{
    lemma_fundamental_div_mod, lemma_mod_multiples_vanish, lemma_small_mod,
};
use vstd::arithmetic::power2::{lemma_pow2_pos, lemma_pow2_unfold, pow2};

verus! {

/// `k` is a power of two.
pub open spec fn is_power_of_two(k: usize) -> bool {
    k > 0 && k & ((k - 1) as usize) == 0
}

/// The position `r` steps after `x` on a ring of `k` positions.
pub open spec fn ring_add(x: int, r: int, k: int) -> int {
    if x + r >= k {
        x + r - k
    } else {
        x + r
    }
}

/// The position `r` steps before `x` on a ring of `k` positions.
pub open spec fn ring_sub(x: int, r: int, k: int) -> int {
    if x >= r {
        x - r
    } else {
        x + k - r
    }
}

/// What masking with `k - 1` does to the low bits, `k` a power of two.
proof fn lemma_mask_low(x: usize, k: usize)
    by (bit_vector)
    requires
        k > 0,
        k & ((k - 1) as usize) == 0,
    ensures
        x < k ==> x & ((k - 1) as usize) == x,
        x >= k ==> ((x - k) as usize) & ((k - 1) as usize) == x & ((k - 1) as usize),
{
}

/// Masking with `k - 1`, `k` a power of two, is taking the remainder by
/// `k`.
pub proof fn lemma_mask_mod(x: usize, k: usize)
    requires
        is_power_of_two(k),
    ensures
        x & ((k - 1) as usize) == x % k,
        x & ((k - 1) as usize) < k,
    decreases x,
{
    lemma_mask_low(x, k);
    if x < k {
        lemma_small_mod(x as nat, k as nat);
    } else {
        let y = (x - k) as usize;
        lemma_mask_mod(y, k);
        lemma_mod_multiples_vanish(1, y as int, k as int);
    }
}

/// A word of ones, masked with `k - 1`, is `k - 1`.
proof fn lemma_all_ones(m: u64, k: u64)
    by (bit_vector)
    requires
        k > 0,
        k & ((k - 1) as u64) == 0,
        m == 0xffff_ffff_ffff_ffffu64 || (m == 0xffff_ffffu64 && k <= 0xffff_ffffu64),
    ensures
        m & ((k - 1) as u64) == k - 1,
{
}

/// The number of values of a machine word is a multiple of every power of
/// two that fits the word, so that wrapping around changes no remainder.
pub proof fn lemma_word_is_multiple(k: usize)
    requires
        is_power_of_two(k),
    ensures
        (usize::MAX + 1) % (k as int) == 0,
{
    let m = usize::MAX;
    assert(m == 0xffff_ffff || m == 0xffff_ffff_ffff_ffff);
    assert((k as u64) & (((k - 1) as usize) as u64) == 0);
    lemma_all_ones(m as u64, k as u64);
    assert(m & ((k - 1) as usize) == k - 1);
    lemma_mask_mod(m, k);
    lemma_fundamental_div_mod(m as int, k as int);
    let q = m as int / k as int;
    assert(m + 1 == k * (q + 1)) by (nonlinear_arith)
        requires
            m == k * q + (k - 1),
    ;
    lemma_mod_multiples_vanish(q + 1, 0, k as int);
    lemma_small_mod(0, k as nat);
}

/// On a ring of `k` positions, the remainder by `k` of a position moved by
/// at most `k` steps, forward or back, is the position that many steps on
/// or before.
pub proof fn lemma_ring_mod(x: int, r: int, k: int)
    requires
        0 <= x < k,
        0 <= r <= k,
    ensures
        (x + r) % k == ring_add(x, r, k),
        (x - r) % k == ring_sub(x, r, k),
{
    if x + r < k {
        lemma_small_mod((x + r) as nat, k as nat);
    } else {
        lemma_mod_multiples_vanish(1, x + r - k, k);
        lemma_small_mod((x + r - k) as nat, k as nat);
    }
    if x >= r {
        lemma_small_mod((x - r) as nat, k as nat);
    } else {
        lemma_mod_multiples_vanish(1, x - r, k);
        lemma_small_mod((x - r + k) as nat, k as nat);
    }
}

/// Every power of two exceeds its exponent.
pub proof fn lemma_pow2_exceeds(n: nat)
    ensures
        n < pow2(n),
    decreases n,
{
    if n == 0 {
        lemma_pow2_pos(0);
    } else {
        lemma_pow2_exceeds((n - 1) as nat);
        lemma_pow2_unfold(n);
    }
}

} // verus!
