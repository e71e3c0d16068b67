//! The mathematical model of the cellular automaton: how a ring of boolean
//! cells is seeded from bytes, how one generation step rewrites the ring,
//! which bit the generator taps, and how bits are packed into bytes.

use vstd::prelude::*;

verus! {

use vstd::arithmetic::power2::pow2;

/// A ring length is usable when it is a power of two no smaller than eight:
/// a power of two so that wrapping an index is a bitwise AND with `n - 1`,
/// and at least eight so that the ring is a whole number of seed bytes.
pub open spec fn valid_ring_size(n: usize) -> bool {
    n >= 8 && n & ((n - 1) as usize) == 0
}

/// Cell `i` of a freshly seeded ring: bit `i % 8` of seed byte `i / 8`,
/// least-significant bit first.
pub open spec fn seed_bit(seed: Seq<u8>, i: int) -> bool
    recommends
        0 <= i < 8 * seed.len(),
{
    (seed[i / 8] >> ((i % 8) as u8)) & 1 == 1
}

/// The ring of `n` cells obtained from a seed buffer: cell `i * 8 + b`
/// holds bit `b` of seed byte `i`.
pub open spec fn init_ring(seed: Seq<u8>, n: nat) -> Seq<bool> {
    Seq::new(n, |i: int| seed_bit(seed, i))
}

/// The five neighborhood cells packed into one integer, in the fixed bit
/// order: bit 4 is the cell two to the left, bit 3 one to the left, bit 2
/// the cell itself, bit 1 one to the right, bit 0 two to the right.
pub open spec fn neigh_code(l2: bool, l1: bool, c: bool, r1: bool, r2: bool) -> int {
    (if l2 { 16int } else { 0int }) + (if l1 { 8int } else { 0int }) + (if c {
        4int
    } else {
        0int
    }) + (if r1 { 2int } else { 0int }) + (if r2 { 1int } else { 0int })
}

/// The neighborhood code of cell `i`: the five cells `i - 2 .. i + 2`,
/// indices wrapped circularly around the ring.
pub open spec fn neighborhood(ring: Seq<bool>, i: int) -> int
    recommends
        ring.len() >= 8,
        0 <= i < ring.len(),
{
    let n = ring.len() as int;
    neigh_code(
        ring[(i + n - 2) % n],
        ring[(i + n - 1) % n],
        ring[i],
        ring[(i + 1) % n],
        ring[(i + 2) % n],
    )
}

/// Bit `k` of the rule table: the next state of a cell whose neighborhood
/// encodes to `k`.
pub open spec fn rule_bit(rule: u32, k: int) -> bool
    recommends
        0 <= k < 32,
{
    rule & (1u32 << (k as u32)) != 0
}

/// One generation step: every cell of the new ring is the rule table's
/// entry for that cell's neighborhood in the old ring. The new ring is a
/// function of the old ring alone.
pub open spec fn step(ring: Seq<bool>, rule: u32) -> Seq<bool> {
    Seq::new(ring.len(), |i: int| rule_bit(rule, neighborhood(ring, i)))
}

/// The ring after `k` generation steps.
pub open spec fn step_n(ring: Seq<bool>, rule: u32, k: nat) -> Seq<bool>
    decreases k,
{
    if k == 0 {
        ring
    } else {
        step(step_n(ring, rule, (k - 1) as nat), rule)
    }
}

/// The `k`-th bit the generator emits from the given state: the ring's
/// midpoint cell after `k + 1` steps (every emitted bit is preceded by
/// exactly one step).
pub open spec fn stream_bit(ring: Seq<bool>, rule: u32, k: nat) -> bool
    recommends
        ring.len() >= 8,
{
    step_n(ring, rule, k + 1)[ring.len() as int / 2]
}

/// A sequence of bits packed into an integer, least-significant bit first:
/// the first bit is the ones place, the second the twos place, and so on.
pub open spec fn pack_bits(bits: Seq<bool>) -> nat
    decreases bits.len(),
{
    if bits.len() == 0 {
        0
    } else {
        (if bits[0] {
            1nat
        } else {
            0nat
        }) + 2 * pack_bits(bits.drop_first())
    }
}

/// The byte the generator emits from the given state: the next eight
/// stream bits, the first in the least-significant position.
pub open spec fn stream_byte(ring: Seq<bool>, rule: u32) -> nat
    recommends
        ring.len() >= 8,
{
    pack_bits(Seq::new(8, |k: int| stream_bit(ring, rule, k as nat)))
}

/// Byte `i` read back from a ring: cells `i * 8 .. i * 8 + 8` packed
/// least-significant bit first — the inverse of the seed mapping.
pub open spec fn ring_byte(ring: Seq<bool>, i: int) -> u8
    recommends
        0 <= i,
        8 * i + 8 <= ring.len(),
{
    pack_bits(ring.subrange(8 * i, 8 * i + 8)) as u8
}

/// The whole seed buffer read back from a ring via the inverse mapping.
pub open spec fn extract_seed(ring: Seq<bool>) -> Seq<u8> {
    Seq::new(ring.len() / 8, |i: int| ring_byte(ring, i))
}

/// For a power-of-two ring size, masking with `n - 1` is reduction
/// modulo `n` (stated for the sums the generator forms, which stay
/// below `2 * n`): the bitwise AND used for circular indexing computes
/// exactly the wrapped index.
pub proof fn lemma_mask_is_mod(x: usize, n: usize, mask: usize)
    requires
        n > 0,
        mask == n - 1,
        n & mask == 0,
        x < n + n,
    ensures
        x & mask == x % n,
{
    assert((x >= n ==> x & mask == x - n) && (x < n ==> x & mask == x)) by (bit_vector)
        requires
            n > 0 && mask == n - 1 && n & mask == 0 && x < n + n,
    ;
    if x >= n {
        vstd::arithmetic::div_mod::lemma_mod_multiples_vanish(1, x - n, n as int);
        vstd::arithmetic::div_mod::lemma_small_mod((x - n) as nat, n as nat);
    } else {
        vstd::arithmetic::div_mod::lemma_small_mod(x as nat, n as nat);
    }
}

/// For a power-of-two ring size and a cell index `i < n`, the bits of `i`
/// and `n` are disjoint, so `i + n` equals `i | n` — in particular the sum
/// fits in `usize` and the generator's wrapped-index sums never overflow.
pub proof fn lemma_index_sum_fits(i: usize, n: usize, mask: usize)
    requires
        i < n,
        mask == n - 1,
        n & mask == 0,
    ensures
        i + n == (i | n),
{
    assert(i + n == (i | n)) by (bit_vector)
        requires
            i < n && mask == n - 1 && n & mask == 0,
    ;
}

/// A power of two no smaller than eight is a multiple of eight, so the
/// ring is a whole number of seed bytes.
pub proof fn lemma_ring_size_multiple_of_8(n: usize)
    requires
        valid_ring_size(n),
    ensures
        n % 8 == 0,
{
    assert(n % 8 == 0) by (bit_vector)
        requires
            n >= 8 && n & ((n - 1) as usize) == 0,
    ;
}

/// Stepping never changes the ring's length.
pub proof fn lemma_step_n_len(ring: Seq<bool>, rule: u32, k: nat)
    ensures
        step_n(ring, rule, k).len() == ring.len(),
    decreases k,
{
    if k > 0 {
        lemma_step_n_len(ring, rule, (k - 1) as nat);
    }
}

/// Steps compose: stepping `j` generations and then `k` more is the same
/// as stepping `j + k` generations.
pub proof fn lemma_step_n_compose(ring: Seq<bool>, rule: u32, j: nat, k: nat)
    ensures
        step_n(step_n(ring, rule, j), rule, k) == step_n(ring, rule, (j + k) as nat),
    decreases k,
{
    if k > 0 {
        lemma_step_n_compose(ring, rule, j, (k - 1) as nat);
    }
}

/// The stream is deterministic: after emitting `j` bits the generator's
/// state is the ring stepped `j` times, and the bits it goes on to emit
/// are exactly the rest of the one stream fixed by the initial ring and
/// the rule — nothing else is ever consulted.
pub proof fn lemma_stream_shift(ring: Seq<bool>, rule: u32, j: nat, k: nat)
    ensures
        stream_bit(step_n(ring, rule, j), rule, k) == stream_bit(ring, rule, (j + k) as nat),
{
    lemma_step_n_compose(ring, rule, j, (k + 1) as nat);
    lemma_step_n_len(ring, rule, j);
}

/// Cell `i * 8 + b` of a freshly seeded ring is bit `b` of seed byte `i`,
/// least-significant bit first.
pub proof fn lemma_seed_cell(seed: Seq<u8>, n: nat, i: int, b: int)
    requires
        0 <= i,
        0 <= b < 8,
        8 * i + b < n,
    ensures
        init_ring(seed, n)[8 * i + b] == ((seed[i] >> (b as u8)) & 1 == 1),
{
    vstd::arithmetic::div_mod::lemma_fundamental_div_mod_converse(8 * i + b, 8, i, b);
}

/// Every neighborhood code lies in `[0, 32)`, whatever the ring holds:
/// the rule-table lookup is always in range.
pub proof fn lemma_neighborhood_in_range(ring: Seq<bool>, i: int)
    ensures
        0 <= neighborhood(ring, i) < 32,
{
}

/// Appending a bit to a packed sequence adds it at the next binary place:
/// bits are packed in call order, least-significant first, with no
/// reordering afterwards.
pub proof fn lemma_pack_bits_push(bits: Seq<bool>, b: bool)
    ensures
        pack_bits(bits.push(b)) == pack_bits(bits) + (if b {
            pow2(bits.len())
        } else {
            0nat
        }),
    decreases bits.len(),
{
    if bits.len() == 0 {
        assert(bits.push(b).drop_first() =~= bits);
        vstd::arithmetic::power2::lemma2_to64();
    } else {
        assert(bits.push(b).drop_first() =~= bits.drop_first().push(b));
        lemma_pack_bits_push(bits.drop_first(), b);
        vstd::arithmetic::power2::lemma_pow2_unfold(bits.len());
    }
}

/// The first bit of a packed sequence occupies the least-significant
/// position of the result.
pub proof fn lemma_pack_bits_lsb(bits: Seq<bool>)
    requires
        bits.len() > 0,
    ensures
        pack_bits(bits) % 2 == (if bits[0] {
            1nat
        } else {
            0nat
        }),
{
    let rest = pack_bits(bits.drop_first());
    let head: nat = if bits[0] {
        1nat
    } else {
        0nat
    };
    assert(pack_bits(bits) == head + 2 * rest);
    vstd::arithmetic::div_mod::lemma_mod_multiples_vanish(rest as int, head as int, 2);
    vstd::arithmetic::div_mod::lemma_small_mod(head, 2);
}

/// The first bit a generator emits occupies the least-significant
/// position of the first byte it emits.
pub proof fn lemma_first_stream_bit_is_lsb(ring: Seq<bool>, rule: u32)
    ensures
        stream_byte(ring, rule) % 2 == (if stream_bit(ring, rule, 0) {
            1nat
        } else {
            0nat
        }),
{
    let bits = Seq::new(8, |k: int| stream_bit(ring, rule, k as nat));
    lemma_pack_bits_lsb(bits);
}

/// The eight bits of a byte, taken least-significant first, pack back to
/// that byte.
#[verifier::rlimit(100)]
pub proof fn lemma_pack_bits_of_byte(s: u8)
    ensures
        pack_bits(Seq::new(8, |b: int| (s >> (b as u8)) & 1 == 1)) == s,
{
    let bits = Seq::new(8, |b: int| (s >> (b as u8)) & 1 == 1);
    let p0 = Seq::<bool>::empty();
    let p1 = p0.push(bits[0]);
    let p2 = p1.push(bits[1]);
    let p3 = p2.push(bits[2]);
    let p4 = p3.push(bits[3]);
    let p5 = p4.push(bits[4]);
    let p6 = p5.push(bits[5]);
    let p7 = p6.push(bits[6]);
    let p8 = p7.push(bits[7]);
    lemma_pack_bits_push(p0, bits[0]);
    lemma_pack_bits_push(p1, bits[1]);
    lemma_pack_bits_push(p2, bits[2]);
    lemma_pack_bits_push(p3, bits[3]);
    lemma_pack_bits_push(p4, bits[4]);
    lemma_pack_bits_push(p5, bits[5]);
    lemma_pack_bits_push(p6, bits[6]);
    lemma_pack_bits_push(p7, bits[7]);
    vstd::arithmetic::power2::lemma2_to64();
    assert(p8 =~= bits);
    assert((s >> 0u8) & 1 < 2 && (s >> 1u8) & 1 < 2 && (s >> 2u8) & 1 < 2 && (s >> 3u8) & 1 < 2
        && (s >> 4u8) & 1 < 2 && (s >> 5u8) & 1 < 2 && (s >> 6u8) & 1 < 2 && (s >> 7u8) & 1 < 2)
        by (bit_vector);
    assert(s == ((s >> 0u8) & 1) + 2 * ((s >> 1u8) & 1) + 4 * ((s >> 2u8) & 1) + 8 * ((s >> 3u8)
        & 1) + 16 * ((s >> 4u8) & 1) + 32 * ((s >> 5u8) & 1) + 64 * ((s >> 6u8) & 1) + 128 * ((s
        >> 7u8) & 1)) by (bit_vector);
}

/// Reading a seeded ring back through the inverse mapping reproduces the
/// seed buffer: seeding loses no entropy and places every bit where the
/// inverse mapping expects it.
pub proof fn lemma_seed_round_trip(seed: Seq<u8>, n: usize)
    requires
        valid_ring_size(n),
        seed.len() == n as nat / 8,
    ensures
        extract_seed(init_ring(seed, n as nat)) == seed,
{
    let ring = init_ring(seed, n as nat);
    lemma_ring_size_multiple_of_8(n);
    vstd::arithmetic::div_mod::lemma_fundamental_div_mod(n as int, 8);
    assert(8 * seed.len() == n);
    assert forall|i: int| 0 <= i < seed.len() implies extract_seed(ring)[i] == seed[i] by {
        let sub = ring.subrange(8 * i, 8 * i + 8);
        let bits = Seq::new(8, |b: int| (seed[i] >> (b as u8)) & 1 == 1);
        assert forall|b: int| 0 <= b < 8 implies sub[b] == bits[b] by {
            vstd::arithmetic::div_mod::lemma_fundamental_div_mod_converse(8 * i + b, 8, i, b);
            assert(ring[8 * i + b] == seed_bit(seed, 8 * i + b));
        }
        assert(sub =~= bits);
        lemma_pack_bits_of_byte(seed[i]);
    }
    assert(extract_seed(ring) =~= seed);
}

/// One step reads the old ring only: the new value of cell `i` is
/// determined by the five old neighborhood cells around `i` alone, so two
/// rings that agree there get the same new cell, whatever else they hold.
pub proof fn lemma_step_reads_old_ring_only(r1: Seq<bool>, r2: Seq<bool>, rule: u32, i: int)
    requires
        r1.len() == r2.len(),
        0 <= i < r1.len(),
        r1[(i + r1.len() - 2) % (r1.len() as int)] == r2[(i + r2.len() - 2) % (r2.len() as int)],
        r1[(i + r1.len() - 1) % (r1.len() as int)] == r2[(i + r2.len() - 1) % (r2.len() as int)],
        r1[i] == r2[i],
        r1[(i + 1) % (r1.len() as int)] == r2[(i + 1) % (r2.len() as int)],
        r1[(i + 2) % (r1.len() as int)] == r2[(i + 2) % (r2.len() as int)],
    ensures
        step(r1, rule)[i] == step(r2, rule)[i],
{
    assert(neighborhood(r1, i) == neighborhood(r2, i));
}

} // verus!
