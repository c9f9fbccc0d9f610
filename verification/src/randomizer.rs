use vstd::prelude::*;

use byteorder::ByteOrder;

use crate::error::AutomataError;

verus! {

/// The multiplier of the 64-bit linear congruential step used by the
/// permuted congruential generator.
pub const PCG_MULTIPLIER: u64 = 6364136223846793005;

/// One step of a 64-bit linear congruential generator, with wrapping
/// arithmetic.
#[verifier::opaque]
pub open spec fn spec_lcg64_step(mul: u64, add: u64, state: u64) -> u64 {
    state.wrapping_mul(mul).wrapping_add(add)
}

/// The output permutation of the generator: xor-shift of the high bits, then
/// a rotation selected by the top five bits of the state.
#[verifier::opaque]
pub open spec fn spec_xsh_rr(state: u64) -> u32 {
    let rot = (state >> 59) as u32;
    let kept = ((state ^ (state >> 18)) >> 27) as u32;
    if rot == 0 {
        kept
    } else {
        (kept >> rot) | (kept << (32 - rot) as u32)
    }
}

/// A permuted congruential generator with 64 bits of state and 32-bit
/// output, deterministic in its seed.
#[derive(Clone, Copy, Debug, PartialEq, Eq, Structural)]
pub struct Pcg32 {
    pub state: u64,
    pub inc: u64,
}

impl Pcg32 {
    /// The generator a seed pair produces: both words are forced odd and the
    /// state is advanced once, so that the first output is already mixed.
    pub open spec fn spec_seed(seed: u64, inc: u64) -> Pcg32 {
        let odd_seed = (seed << 1) | 1;
        let odd_inc = (inc << 1) | 1;
        Pcg32 { state: spec_lcg64_step(PCG_MULTIPLIER, odd_inc, odd_seed), inc: odd_inc }
    }

    pub fn seed(seed: u64, inc: u64) -> (g: Pcg32)
        ensures
            g == Pcg32::spec_seed(seed, inc),
    {
        proof {
            reveal(spec_lcg64_step);
        }
        let odd_seed: u64 = (seed << 1) | 1;
        let odd_inc: u64 = (inc << 1) | 1;
        let state = odd_seed.wrapping_mul(PCG_MULTIPLIER).wrapping_add(odd_inc);
        Pcg32 { state, inc: odd_inc }
    }

    /// The state after one step.
    pub open spec fn spec_step(self) -> Pcg32 {
        Pcg32 { state: spec_lcg64_step(PCG_MULTIPLIER, self.inc, self.state), inc: self.inc }
    }

    /// The output drawn while taking that step.
    pub open spec fn spec_output(self) -> u32 {
        spec_xsh_rr(self.state)
    }

    /// Generates the next 32-bit value and advances the state.
    pub fn next_u32(&mut self) -> (r: u32)
        ensures
            r == old(self).spec_output(),
            *final(self) == old(self).spec_step(),
    {
        proof {
            reveal(spec_lcg64_step);
            reveal(spec_xsh_rr);
        }
        let new_state = self.state.wrapping_mul(PCG_MULTIPLIER).wrapping_add(self.inc);
        let s = self.state;
        let rot: u32 = (s >> 59) as u32;
        let kept: u32 = ((s ^ (s >> 18)) >> 27) as u32;
        proof {
            assert(rot < 32) by (bit_vector)
                requires
                    rot == (s >> 59) as u32,
            ;
        }
        let out: u32 = if rot == 0 {
            kept
        } else {
            (kept >> rot) | (kept << (32 - rot))
        };
        self.state = new_state;
        out
    }
}

/// The state after `n` steps of the generator.
pub open spec fn spec_state_after(g: Pcg32, n: nat) -> Pcg32
    decreases n,
{
    if n == 0 {
        g
    } else {
        spec_state_after(g, (n - 1) as nat).spec_step()
    }
}

/// The `n`-th output of the generator (counting from zero).
pub open spec fn spec_draw(g: Pcg32, n: nat) -> u32 {
    spec_state_after(g, n).spec_output()
}

/// The 23 bits a 32-bit draw contributes when it is mapped into the unit
/// interval `[0, 1)` as `m / 2^23` with `m = draw >> 9`.  Comparing `m`
/// against a fixed integer threshold decides a Bernoulli trial exactly as
/// comparing the mapped value against the corresponding fraction would.
pub open spec fn spec_unit_mantissa(u: u32) -> u32 {
    u >> 9
}

pub fn unit_mantissa(u: u32) -> (r: u32)
    ensures
        r == spec_unit_mantissa(u),
{
    u >> 9
}

/// The Bernoulli fill a seeded generator produces: cell `i` is live exactly
/// when the unit mantissa of the `i`-th draw exceeds the threshold.
pub open spec fn spec_random_fill(n: nat, seed_a: u64, seed_b: u64, threshold: u32) -> Seq<bool> {
    Seq::new(
        n,
        |i: int|
            spec_unit_mantissa(spec_draw(Pcg32::spec_seed(seed_a, seed_b), i as nat)) > threshold,
    )
}

/// Relies on `getrandom::getrandom`: fills the buffer with bytes from the
/// operating system's entropy source, or reports that the source failed.
/// Nothing can be promised about the bytes themselves.
#[verifier::external_body]
fn os_entropy_16() -> (r: Option<[u8; 16]>) {
    let mut buf = [0u8; 16];
    match getrandom::getrandom(&mut buf) {
        Ok(()) => Some(buf),
        Err(_) => None,
    }
}

/// Relies on `byteorder::NativeEndian::read_u64`: reads eight bytes starting
/// at `offset` as one machine-endian integer.  The callee panics on a buffer
/// shorter than eight bytes, which the bound on `offset` rules out; the value
/// read depends on the machine's byte order, so nothing is stated about it.
#[verifier::external_body]
fn read_u64_native(bytes: &[u8; 16], offset: usize) -> (r: u64)
    requires
        offset + 8 <= 16,
{
    byteorder::NativeEndian::read_u64(&bytes[offset..offset + 8])
}

/// Draws 16 bytes from the operating system's entropy source and packs them
/// into the two words of a generator seed.  Fails only if the entropy source
/// itself fails; no simulation can be seeded in that case.
pub fn generate_seed() -> (r: Result<(u64, u64), AutomataError>)
    ensures
        r matches Err(e) ==> e == AutomataError::EntropyFailure,
{
    match os_entropy_16() {
        Some(buf) => Ok((read_u64_native(&buf, 0), read_u64_native(&buf, 8))),
        None => Err(AutomataError::EntropyFailure),
    }
}

} // verus!
