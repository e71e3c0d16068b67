//! The executable generator: a ring of cells stepped by a rule table,
//! emitting one bit per step and packing bits into bytes.

use vstd::prelude::*;

verus! {

use crate::model::init_ring;
use crate::model::lemma_index_sum_fits;
use crate::model::lemma_mask_is_mod;
use crate::model::lemma_pack_bits_push;
use crate::model::lemma_ring_size_multiple_of_8;
use crate::model::lemma_step_n_len;
use crate::model::neighborhood;
use crate::model::pack_bits;
use crate::model::rule_bit;
use crate::model::seed_bit;
use crate::model::step;
use crate::model::step_n;
use crate::model::stream_bit;
use crate::model::stream_byte;
use crate::model::valid_ring_size;
use vstd::arithmetic::power2::pow2;

/// Why a generator could not be constructed.
#[derive(Clone, Copy, Debug, PartialEq, Eq, Structural)]
pub enum CAError {
    /// The requested ring size is not a power of two of at least eight cells.
    InvalidConfiguration,
    /// The seed buffer holds fewer bytes than the ring needs.
    SeedTooShort,
}

/// A pseudo-random generator driven by a one-dimensional binary cellular
/// automaton on a circular ring of cells.
///
/// The ring is seeded once from a byte buffer; afterwards every emitted
/// bit advances the automaton by exactly one generation, and the emitted
/// bit is the cell at the ring's midpoint. The rule table's bit `k` gives
/// the next state of a cell whose five-cell neighborhood (two left, self,
/// two right, wrapped circularly) encodes to `k`.
#[derive(Debug)]
pub struct CARandomGenerator {
    ring: Vec<bool>,
    mask: usize,
    rule_number: u32,
}

impl View for CARandomGenerator {
    type V = Seq<bool>;

    /// The generator's current ring contents.
    closed spec fn view(&self) -> Seq<bool> {
        self.ring@
    }
}

impl CARandomGenerator {
    /// The ring length is a usable power of two and the stored mask is the
    /// matching index mask `len - 1`.
    #[verifier::type_invariant]
    spec fn wf(self) -> bool {
        &&& self.ring@.len() == self.mask + 1
        &&& valid_ring_size((self.mask + 1) as usize)
    }

    /// The rule table the generator was constructed with.
    pub closed spec fn rule(&self) -> u32 {
        self.rule_number
    }

    /// Builds a generator with a ring of `n` cells seeded from the first
    /// `n / 8` bytes of `seed`: ring cell `i * 8 + b` is bit `b` of seed
    /// byte `i`, least-significant bit first.
    pub fn new(n: usize, rule_number: u32, seed: &Vec<u8>) -> (result: Result<
        CARandomGenerator,
        CAError,
    >)
        ensures
            result is Ok <==> valid_ring_size(n) && n / 8 <= seed@.len(),
            !valid_ring_size(n) ==> result == Err::<CARandomGenerator, CAError>(
                CAError::InvalidConfiguration,
            ),
            valid_ring_size(n) && seed@.len() < n / 8 ==> result == Err::<
                CARandomGenerator,
                CAError,
            >(CAError::SeedTooShort),
            result is Ok ==> result->Ok_0@ == init_ring(seed@, n as nat)
                && result->Ok_0.rule() == rule_number,
    {
        if n < 8 || (n & (n - 1)) != 0 {
            return Err(CAError::InvalidConfiguration);
        }
        if seed.len() < n / 8 {
            return Err(CAError::SeedTooShort);
        }
        let mut cells: Vec<bool> = Vec::new();
        let mut idx: usize = 0;
        while idx < n
            invariant
                valid_ring_size(n),
                n / 8 <= seed@.len(),
                idx <= n,
                cells@.len() == idx,
                forall|j: int| 0 <= j < idx ==> cells@[j] == seed_bit(seed@, j),
            decreases n - idx,
        {
            proof {
                lemma_ring_size_multiple_of_8(n);
                vstd::arithmetic::div_mod::lemma_fundamental_div_mod(n as int, 8);
                vstd::arithmetic::div_mod::lemma_fundamental_div_mod(idx as int, 8);
            }
            let byte = seed[idx / 8];
            let bit = (byte >> ((idx % 8) as u8)) & 1;
            cells.push(bit == 1);
            idx = idx + 1;
        }
        proof {
            assert(cells@ =~= init_ring(seed@, n as nat));
        }
        Ok(CARandomGenerator { ring: cells, mask: n - 1, rule_number })
    }

    /// Looks up the next state of a cell in the rule table: bit
    /// `input_bits` of `rule_number`, where `input_bits` encodes the
    /// cell's five-cell neighborhood.
    pub fn compute_ca_rule(rule_number: u32, input_bits: u8) -> (bit: bool)
        requires
            input_bits < 32,
        ensures
            bit == rule_bit(rule_number, input_bits as int),
    {
        rule_number & (1u32 << (input_bits as u32)) != 0
    }

    /// Advances the automaton by one generation. The whole new ring is
    /// computed from the old ring alone, then installed in its place.
    fn update_ring(&mut self)
        ensures
            final(self)@ == step(old(self)@, old(self).rule()),
            final(self).rule() == old(self).rule(),
    {
        proof {
            use_type_invariant(&*self);
        }
        let n = self.ring.len();
        let mask = self.mask;
        let rule = self.rule_number;
        let ghost orig = self.ring@;
        let mut next: Vec<bool> = Vec::new();
        let mut i: usize = 0;
        while i < n
            invariant
                self.ring@ == orig,
                self.rule_number == rule,
                self.mask == mask,
                n == orig.len(),
                n == mask + 1,
                valid_ring_size(n),
                i <= n,
                next@.len() == i,
                forall|j: int| 0 <= j < i ==> next@[j] == step(orig, rule)[j],
            decreases n - i,
        {
            proof {
                lemma_index_sum_fits(i, n, mask);
            }
            let a = i + n - 2;
            let b = i + n - 1;
            let c = i + 1;
            let d = i + 2;
            proof {
                lemma_mask_is_mod(a, n, mask);
                lemma_mask_is_mod(b, n, mask);
                lemma_mask_is_mod(c, n, mask);
                lemma_mask_is_mod(d, n, mask);
            }
            let l2 = self.ring[a & mask];
            let l1 = self.ring[b & mask];
            let ctr = self.ring[i];
            let r1 = self.ring[c & mask];
            let r2 = self.ring[d & mask];
            let code: u8 = (if l2 {
                16
            } else {
                0
            }) + (if l1 {
                8
            } else {
                0
            }) + (if ctr {
                4
            } else {
                0
            }) + (if r1 {
                2
            } else {
                0
            }) + (if r2 {
                1
            } else {
                0
            });
            proof {
                assert(code as int == neighborhood(orig, i as int));
            }
            let new_cell = Self::compute_ca_rule(rule, code);
            proof {
                assert(step(orig, rule)[i as int] == rule_bit(rule, neighborhood(orig, i as int)));
            }
            next.push(new_cell);
            i = i + 1;
        }
        proof {
            assert(next@ =~= step(orig, rule));
        }
        self.ring = next;
    }

    /// Advances the automaton by exactly one generation and returns the
    /// cell at the ring's midpoint — the generator's next pseudo-random
    /// bit. There is no way to read a bit without advancing the ring.
    pub fn get_random_bit(&mut self) -> (bit: bool)
        ensures
            final(self)@ == step(old(self)@, old(self).rule()),
            final(self).rule() == old(self).rule(),
            bit == stream_bit(old(self)@, old(self).rule(), 0),
    {
        self.update_ring();
        proof {
            use_type_invariant(&*self);
        }
        let n = self.ring.len();
        let tap = n >> 1;
        proof {
            assert(n >> 1 == n / 2) by (bit_vector);
            assert(step_n(old(self)@, old(self).rule(), 0) == old(self)@);
            assert(step_n(old(self)@, old(self).rule(), 1) == self@);
        }
        self.ring[tap]
    }

    /// Emits the next byte: eight fresh bits, the first in the
    /// least-significant position of the result, each bit advancing the
    /// ring by one generation (eight generations in all).
    pub fn get_random_byte(&mut self) -> (byte: u8)
        ensures
            final(self)@ == step_n(old(self)@, old(self).rule(), 8),
            final(self).rule() == old(self).rule(),
            byte as nat == stream_byte(old(self)@, old(self).rule()),
    {
        proof {
            use_type_invariant(&*self);
            vstd::arithmetic::power2::lemma2_to64();
        }
        let ghost orig = self@;
        let ghost rule_spec = self.rule();
        let mut value: u16 = 0;
        let mut weight: u16 = 1;
        let mut i: usize = 0;
        while i < 8
            invariant
                i <= 8,
                self.rule() == rule_spec,
                self@ == step_n(orig, rule_spec, i as nat),
                orig.len() >= 8,
                weight as nat == pow2(i as nat),
                value as nat == pack_bits(Seq::new(i as nat, |k: int| stream_bit(orig, rule_spec, k as nat))),
                (value as nat) < pow2(i as nat),
            decreases 8 - i,
        {
            let ghost before = self@;
            let ghost bits_so_far = Seq::new(i as nat, |k: int| stream_bit(orig, rule_spec, k as nat));
            let bit = self.get_random_bit();
            proof {
                lemma_step_n_len(orig, rule_spec, i as nat);
                assert(step_n(orig, rule_spec, (i + 1) as nat) == step(
                    step_n(orig, rule_spec, i as nat),
                    rule_spec,
                ));
                lemma_step_n_len(orig, rule_spec, (i + 1) as nat);
                assert(step_n(before, rule_spec, 0) == before);
                assert(step_n(before, rule_spec, 1) == step(before, rule_spec));
                assert(step_n(before, rule_spec, 1) == step_n(orig, rule_spec, (i + 1) as nat));
                assert(bit == stream_bit(orig, rule_spec, i as nat));
                lemma_pack_bits_push(bits_so_far, bit);
                assert(bits_so_far.push(bit) =~= Seq::new(
                    (i + 1) as nat,
                    |k: int| stream_bit(orig, rule_spec, k as nat),
                ));
                vstd::arithmetic::power2::lemma2_to64();
                vstd::arithmetic::power2::lemma_pow2_unfold((i + 1) as nat);
                if i + 1 < 8 {
                    vstd::arithmetic::power2::lemma_pow2_strictly_increases((i + 1) as nat, 8);
                }
            }
            if bit {
                value = value + weight;
            }
            weight = weight * 2;
            i = i + 1;
        }
        proof {
            vstd::arithmetic::power2::lemma2_to64();
            assert(value < 256);
        }
        value as u8
    }
}

} // verus!
