//! The pseudo-random stream that drives sampling: a 32-bit xorshift
//! generator with shifts 13, 17 and 15.

use crate::scalar::{Scalar, ONE_BITS};
use vstd::prelude::*;

verus! {

/// Low 24 bits of a state word: the numerator of the sample drawn from it.
pub const SAMPLE_MASK: u32 = 0x00FF_FFFF;

/// One step of the generator.
pub open spec fn xor_shift_32_spec(val: u32) -> u32 {
    let a = val ^ (val << 13);
    let b = a ^ (a >> 17);
    b ^ (b << 15)
}

/// The state reached from `seed` after `steps` steps.
pub open spec fn state_after(seed: u32, steps: nat) -> u32
    decreases steps,
{
    if steps == 0 {
        seed
    } else {
        xor_shift_32_spec(state_after(seed, (steps - 1) as nat))
    }
}

/// The sample that a state word yields: its low 24 bits over `2^24`.
pub open spec fn sample_of(state: u32) -> Scalar {
    Scalar::unit_fraction_spec(state & SAMPLE_MASK)
}

/// Steps compose: `a` steps followed by `b` steps are `a + b` steps.
pub proof fn lemma_state_after_adds(seed: u32, a: nat, b: nat)
    ensures
        state_after(state_after(seed, a), b) == state_after(seed, a + b),
    decreases b,
{
    if b > 0 {
        lemma_state_after_adds(seed, a, (b - 1) as nat);
        assert((a + b - 1) as nat == a + (b - 1) as nat);
    }
}

/// A step is one-to-one: two different states never merge.
pub proof fn lemma_xor_shift_32_injective(a: u32, b: u32)
    requires
        xor_shift_32_spec(a) == xor_shift_32_spec(b),
    ensures
        a == b,
{
    assert(xor_shift_32_spec(a) == xor_shift_32_spec(b) ==> a == b) by (bit_vector);
}

/// Advances a state word by one step.  Zero is the only fixed point that
/// absorbs: a non-zero state never becomes zero.
pub fn xor_shift_32(val: u32) -> (r: u32)
    ensures
        r == xor_shift_32_spec(val),
        r == 0 <==> val == 0,
{
    let mut x: u32 = val;
    x ^= x << 13;
    x ^= x >> 17;
    x ^= x << 15;
    assert(xor_shift_32_spec(val) == 0 <==> val == 0) by (bit_vector);
    x
}

/// Advances the state by one step and draws the sample
/// `(state & 0xFFFFFF) / 2^24` from the new state, a number in `[0, 1)`.
pub fn random_float01(state: &mut u32) -> (r: Scalar)
    ensures
        *final(state) == xor_shift_32_spec(*old(state)),
        r == sample_of(*final(state)),
        r.is_dyadic((*final(state) & SAMPLE_MASK) as nat, 24),
        !r.is_nan_spec(),
        0 <= r.key() < ONE_BITS,
{
    *state = xor_shift_32(*state);
    let numerator: u32 = *state & SAMPLE_MASK;
    assert(numerator < 0x100_0000) by (bit_vector)
        requires
            numerator == *state & SAMPLE_MASK,
    ;
    Scalar::from_unit_fraction(numerator)
}

} // verus!
