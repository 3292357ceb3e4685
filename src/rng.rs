//! The pseudo-random generator of smoothed predictors: PCG-XSH-RR with 64 bits
//! of state and 32-bit outputs.
use vstd::prelude::*;

verus! {

pub const PCG_MULT: u64 = 6364136223846793005;

/// The default state and increment of a generator made without a seed.
pub const DEFAULT_STATE: u64 = 0x853c49e6748fea9b;

pub const DEFAULT_INC: u64 = 0xda3e39cb94b95bdb;

/// One step of the linear congruential state: `state * PCG_MULT + inc` modulo 2^64.
pub open spec fn pcg_step(state: u64, inc: u64) -> u64 {
    ((state * PCG_MULT + inc) % 0x1_0000_0000_0000_0000) as u64
}

/// The output for a state: its high bits, xor-folded, rotated by its top five bits.
pub open spec fn pcg_output(state: u64) -> u32 {
    let xorshifted = #[verifier::truncate] ((((state >> 18u64) ^ state) >> 27u64) as u32);
    let rot = (state >> 59u64) as u32;
    (xorshifted >> rot) | (xorshifted << ((32 - rot) as u32 & 31u32))
}

/// A PCG32 generator.
#[derive(Clone, Copy, Debug, PartialEq, Eq, Structural)]
pub struct Pcg32 {
    pub state: u64,
    pub inc: u64,
}

/// The generator after `n` draws.
pub open spec fn advance(g: Pcg32, n: nat) -> Pcg32
    decreases n,
{
    if n == 0 {
        g
    } else {
        let h = advance(g, (n - 1) as nat);
        Pcg32 { state: pcg_step(h.state, h.inc), inc: h.inc }
    }
}

/// Draw number `n` (from 0) of the generator `g`.
pub open spec fn draw_at(g: Pcg32, n: nat) -> u32 {
    pcg_output(advance(g, n).state)
}

/// The generator seeded with `initstate` on the stream `initseq`.
pub open spec fn seeded(initstate: u64, initseq: u64) -> Pcg32 {
    let inc = ((initseq * 2 + 1) % 0x1_0000_0000_0000_0000) as u64;
    let s1 = pcg_step(0, inc);
    let s2 = ((s1 + initstate) % 0x1_0000_0000_0000_0000) as u64;
    Pcg32 { state: pcg_step(s2, inc), inc }
}

fn step(state: u64, inc: u64) -> (r: u64)
    ensures
        r == pcg_step(state, inc),
{
    let m = state.wrapping_mul(PCG_MULT);
    let r = m.wrapping_add(inc);
    proof {
        let big: int = 0x1_0000_0000_0000_0000;
        vstd::arithmetic::div_mod::lemma_add_mod_noop(state * PCG_MULT, inc as int, big);
        vstd::arithmetic::div_mod::lemma_small_mod(inc as nat, big as nat);
        if m + inc > u64::MAX {
            vstd::arithmetic::div_mod::lemma_mod_sub_multiples_vanish(m + inc, big);
            vstd::arithmetic::div_mod::lemma_small_mod((m + inc - big) as nat, big as nat);
        } else {
            vstd::arithmetic::div_mod::lemma_small_mod((m + inc) as nat, big as nat);
        }
    }
    r
}

fn output(state: u64) -> (r: u32)
    ensures
        r == pcg_output(state),
{
    let xorshifted = #[verifier::truncate] ((((state >> 18u64) ^ state) >> 27u64) as u32);
    assert(state >> 59u64 < 32) by (bit_vector);
    let rot = (state >> 59u64) as u32;
    let amount = (32 - rot) & 31u32;
    assert(amount < 32) by (bit_vector)
        requires
            amount == (32 - rot) as u32 & 31u32,
    ;
    (xorshifted >> rot) | (xorshifted << amount)
}

impl Pcg32 {
    /// A generator seeded with `initstate` on the stream `initseq`.
    pub fn new(initstate: u64, initseq: u64) -> (g: Pcg32)
        ensures
            g == seeded(initstate, initseq),
    {
        let inc = initseq.wrapping_mul(2).wrapping_add(1);
        proof {
            let big: int = 0x1_0000_0000_0000_0000;
            let m = vstd::wrapping::u64_specs::wrapping_mul(initseq, 2);
            vstd::arithmetic::div_mod::lemma_add_mod_noop(initseq * 2, 1, big);
            vstd::arithmetic::div_mod::lemma_small_mod(1, big as nat);
            if m + 1 > u64::MAX {
                vstd::arithmetic::div_mod::lemma_mod_sub_multiples_vanish(m + 1, big);
                vstd::arithmetic::div_mod::lemma_small_mod((m + 1 - big) as nat, big as nat);
            } else {
                vstd::arithmetic::div_mod::lemma_small_mod((m + 1) as nat, big as nat);
            }
        }
        let s1 = step(0, inc);
        let s2 = s1.wrapping_add(initstate);
        proof {
            let big: int = 0x1_0000_0000_0000_0000;
            if s1 + initstate > u64::MAX {
                vstd::arithmetic::div_mod::lemma_mod_sub_multiples_vanish(s1 + initstate, big);
                vstd::arithmetic::div_mod::lemma_small_mod((s1 + initstate - big) as nat, big as nat);
            } else {
                vstd::arithmetic::div_mod::lemma_small_mod((s1 + initstate) as nat, big as nat);
            }
        }
        Pcg32 { state: step(s2, inc), inc }
    }

    /// The generator that a predictor made without a seed uses.
    pub fn unseeded() -> (g: Pcg32)
        ensures
            g == (Pcg32 { state: DEFAULT_STATE, inc: DEFAULT_INC }),
    {
        Pcg32 { state: DEFAULT_STATE, inc: DEFAULT_INC }
    }

    /// The next 32-bit output.
    pub fn next_u32(&mut self) -> (r: u32)
        ensures
            r == pcg_output(old(self).state),
            *final(self) == advance(*old(self), 1),
    {
        assert(advance(*old(self), 0) == *old(self));
        let r = output(self.state);
        self.state = step(self.state, self.inc);
        r
    }
}

} // verus!
