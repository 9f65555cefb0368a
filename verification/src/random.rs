//! The random numbers the viewer fills a playground `RAND` buffer with:
//! a xorshift64* generator, as the playground does (host-side, once at
//! startup).

use vstd::prelude::*;

verus! {

/// One xorshift64 step.
pub open spec fn xorshift_step(state: u64) -> u64 {
    let a = state ^ (state >> 12u64);
    let b = a ^ (a << 25u64);
    b ^ (b >> 27u64)
}

/// The xorshift64* output multiplier.
pub const XORSHIFT_MULTIPLIER: u64 = 0x2545_F491_4F6C_DD1D;

/// Generator state after `n` steps from `seed` (forced odd, so never 0).
pub open spec fn xorshift_state(seed: u64, n: nat) -> u64
    decreases n,
{
    if n == 0 {
        seed | 1
    } else {
        xorshift_step(xorshift_state(seed, (n - 1) as nat))
    }
}

/// The `n`-th random value: the top 24 bits of the scrambled state after
/// `n + 1` steps.
pub open spec fn random_value(seed: u64, n: nat) -> u32 {
    let mixed = ((xorshift_state(seed, n + 1) as nat * XORSHIFT_MULTIPLIER as nat) % 0x1_0000_0000_0000_0000nat) as u64;
    (mixed >> 40u64) as u32
}

/// `count` random 24-bit values from a generator seeded with `seed`; each
/// divided by 2^24 is a uniform float in [0, 1).
pub fn random_bits(seed: u64, count: usize) -> (values: Vec<u32>)
    ensures
        values@.len() == count,
        forall|i: int| 0 <= i < count ==> #[trigger] values@[i] == random_value(seed, i as nat),
        forall|i: int| 0 <= i < count ==> #[trigger] values@[i] < 0x100_0000,
{
    let mut state: u64 = seed | 1;
    let mut values: Vec<u32> = Vec::new();
    let mut i: usize = 0;
    while i < count
        invariant
            i <= count,
            values@.len() == i,
            state == xorshift_state(seed, i as nat),
            forall|k: int| 0 <= k < i ==> #[trigger] values@[k] == random_value(seed, k as nat),
            forall|k: int| 0 <= k < i ==> #[trigger] values@[k] < 0x100_0000,
        decreases count - i,
    {
        state ^= state >> 12;
        state ^= state << 25;
        state ^= state >> 27;
        let mixed = state.wrapping_mul(XORSHIFT_MULTIPLIER);
        let value = (mixed >> 40) as u32;
        assert(mixed >> 40u64 < 0x100_0000) by (bit_vector);
        values.push(value);
        i += 1;
    }
    values
}

} // verus!
