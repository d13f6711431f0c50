//! Verified core of a pluggable guest-interpreter architecture for a
//! virtual-computer emulator.
//!
//! The host engine supplies the simulated hardware (components, power and
//! heat budget, signal queue) and drives one resume of the guest program per
//! tick; this crate holds the logic of the bridge between the two sides:
//! the bounded allocator that keeps guest memory inside the host quota, the
//! marshalling of values across the guest/host boundary, the permissive
//! unicode indexing helper, the decision logic of the host-callable API
//! surface, and the classification of each tick's resume outcome.

use vstd::prelude::*;

pub mod allocator;
pub mod api;
pub mod tick;
pub mod unicode;
pub mod value;

verus! {

/// Rounds `size` up to the next multiple of `align`, where `align` is a
/// power of two. Used by the raw host allocator to keep every grant
/// 16-byte aligned.
#[verifier::rlimit(100)]
pub fn align_up(size: usize, align: usize) -> (r: usize)
    requires
        align > 0,
        (align & ((align - 1) as usize)) == 0,
        size + align - 1 <= usize::MAX,
    ensures
        r % align == 0,
        size <= r < size + align,
{
    let m = align - 1;
    let sum = size + m;
    let r = sum & !m;
    proof {
        assert(sum - m <= (sum & !m) <= sum && ((sum & !m) & m) == 0) by (bit_vector);
        assert((r & m) == 0 && (align & m) == 0 && m == align - 1 && align > 0 ==> r % align
            == 0) by (bit_vector);
    }
    r
}

/// One step of the host context's pseudo-random generator: a linear
/// congruential step on the seed, handing out the upper bits.
pub fn rng_next(seed: u64) -> (r: (u64, u64))
    ensures
        r.0 == (seed * 6364136223846793005 + 1) % 0x1_0000_0000_0000_0000,
        r.1 == r.0 >> 33,
{
    let next = seed.wrapping_mul(6364136223846793005).wrapping_add(1);
    proof {
        let m: int = 0x1_0000_0000_0000_0000;
        let p: int = seed * 6364136223846793005;
        vstd::arithmetic::div_mod::lemma_add_mod_noop(p, 1, m);
        vstd::arithmetic::div_mod::lemma_mod_division_less_than_divisor(p, m);
        if p % m + 1 < m {
            vstd::arithmetic::div_mod::lemma_small_mod((p % m + 1) as nat, m as nat);
        } else {
            vstd::arithmetic::div_mod::lemma_mod_self_0(m);
        }
        vstd::arithmetic::div_mod::lemma_small_mod(1nat, m as nat);
    }
    (next, next >> 33)
}

} // verus!
