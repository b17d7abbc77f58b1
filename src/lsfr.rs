//! Deterministic pseudo-random byte source built on a 16-bit linear-feedback
//! shift register.
use vstd::prelude::*;

verus! {

/// The register value every fresh source starts from.
pub const LSFR_SEED: u16 = 0x1234;

/// The feedback bit of a register value: the XOR of bits 0, 2, 3 and 5.
pub open spec fn feedback_bit(s: u16) -> u16 {
    (s ^ (s >> 2u16) ^ (s >> 3u16) ^ (s >> 5u16)) & 1u16
}

/// The register value after one shift: the feedback bit enters at the top.
pub open spec fn next_state(s: u16) -> u16 {
    (s >> 1u16) | (feedback_bit(s) << 15u16)
}

/// The register value after `n` shifts.
pub open spec fn state_after(s: u16, n: nat) -> u16
    decreases n,
{
    if n == 0 {
        s
    } else {
        next_state(state_after(s, (n - 1) as nat))
    }
}

/// The weight of bit position `i`, that is two to the power `i`.
pub open spec fn bit_weight(i: nat) -> nat
    decreases i,
{
    if i == 0 {
        1
    } else {
        2 * bit_weight((i - 1) as nat)
    }
}

/// The number assembled from the first `n` feedback bits produced from
/// register value `s`, least significant bit first.
pub open spec fn assembled_bits(s: u16, n: nat) -> nat
    decreases n,
{
    if n == 0 {
        0
    } else {
        assembled_bits(s, (n - 1) as nat) + feedback_bit(state_after(s, (n - 1) as nat)) as nat
            * bit_weight((n - 1) as nat)
    }
}

/// The byte that `gen` returns when the register holds `s`.
pub open spec fn byte_from(s: u16) -> u8 {
    assembled_bits(s, 8) as u8
}

/// The `k`-th byte (counting from zero) produced by a source whose register
/// starts at `s`.
pub open spec fn kth_byte(s: u16, k: nat) -> u8 {
    byte_from(state_after(s, 8 * k))
}

pub proof fn lemma_feedback_bit_is_bit(s: u16)
    ensures
        feedback_bit(s) <= 1,
{
    assert(((s ^ (s >> 2u16) ^ (s >> 3u16) ^ (s >> 5u16)) & 1u16) <= 1u16) by (bit_vector);
}

proof fn lemma_assembled_bits_bound(s: u16, n: nat)
    ensures
        assembled_bits(s, n) < bit_weight(n),
    decreases n,
{
    if n > 0 {
        lemma_assembled_bits_bound(s, (n - 1) as nat);
        lemma_feedback_bit_is_bit(state_after(s, (n - 1) as nat));
        let b = feedback_bit(state_after(s, (n - 1) as nat)) as nat;
        let w = bit_weight((n - 1) as nat);
        assert(b * w <= w) by (nonlinear_arith)
            requires
                b <= 1,
        ;
    }
}

proof fn lemma_state_after_add(s: u16, a: nat, b: nat)
    ensures
        state_after(state_after(s, a), b) == state_after(s, a + b),
    decreases b,
{
    if b > 0 {
        lemma_state_after_add(s, a, (b - 1) as nat);
    }
}

/// A 16-bit linear-feedback shift register producing one pseudo-random bit
/// per shift and one byte per eight shifts.
#[derive(Debug)]
pub struct Lsfr {
    state: u16,
}

impl View for Lsfr {
    type V = u16;

    closed spec fn view(&self) -> u16 {
        self.state
    }
}

impl Lsfr {
    /// A source seeded with the fixed initial register value.
    pub fn new() -> (r: Self)
        ensures
            r@ == LSFR_SEED,
    {
        Lsfr { state: LSFR_SEED }
    }

    /// Shifts the register once and returns the feedback bit (0 or 1).
    pub fn get(&mut self) -> (r: u8)
        ensures
            r as u16 == feedback_bit(old(self)@),
            r <= 1,
            final(self)@ == next_state(old(self)@),
    {
        let s = self.state;
        let bit: u16 = (s ^ (s >> 2u16) ^ (s >> 3u16) ^ (s >> 5u16)) & 1u16;
        proof {
            lemma_feedback_bit_is_bit(s);
        }
        self.state = (s >> 1u16) | (bit << 15u16);
        bit as u8
    }

    /// Produces one byte from eight successive feedback bits, the first bit
    /// being the least significant.
    pub fn gen(&mut self) -> (r: u8)
        ensures
            r == byte_from(old(self)@),
            final(self)@ == state_after(old(self)@, 8),
    {
        let ghost s0 = self.state;
        let mut acc: u16 = 0;
        let mut weight: u16 = 1;
        let mut i: usize = 0;
        while i < 8
            invariant
                i <= 8,
                self@ == state_after(s0, i as nat),
                acc as nat == assembled_bits(s0, i as nat),
                weight as nat == bit_weight(i as nat),
                acc < weight,
                weight <= 256,
                i < 8 ==> weight <= 128,
            decreases 8 - i,
        {
            let bit = self.get();
            proof {
                lemma_assembled_bits_bound(s0, (i + 1) as nat);
                reveal_with_fuel(bit_weight, 9);
                assert(bit_weight(i as nat + 1) == 2 * bit_weight(i as nat));
            }
            acc = acc + (bit as u16) * weight;
            weight = weight * 2;
            i = i + 1;
            proof {
                if i < 8 {
                    assert(weight <= 128) by {
                        reveal_with_fuel(bit_weight, 9);
                    }
                }
            }
        }
        acc as u8
    }
}

/// Two freshly constructed sources produce the same byte sequence: both
/// start in the same state, the byte returned by the `k`-th call of `gen`
/// (counting from zero) is `kth_byte(LSFR_SEED, k)` for either, and that call
/// leaves either register at `state_after(LSFR_SEED, 8 * (k + 1))`.
pub proof fn lemma_fresh_sources_agree(a: Lsfr, b: Lsfr, k: nat)
    requires
        a@ == LSFR_SEED,
        b@ == LSFR_SEED,
    ensures
        a@ == b@,
        byte_from(state_after(a@, 8 * k)) == kth_byte(LSFR_SEED, k),
        byte_from(state_after(b@, 8 * k)) == kth_byte(LSFR_SEED, k),
        state_after(state_after(a@, 8 * k), 8) == state_after(LSFR_SEED, 8 * (k + 1)),
{
    lemma_state_after_add(LSFR_SEED, 8 * k, 8);
    assert(8 * k + 8 == 8 * (k + 1));
}

} // verus!
