//! Deterministic random generator: SplitMix64 seeding + xoshiro256** core.
//!
//! Only integer arithmetic is used (wrapping multiply/add, shifts, xor and
//! rotations), so the output word sequence is identical on every platform
//! for a given seed. The generator state is part of the world state, the
//! state hash and the snapshot format.

use core::ops::Range;

use vstd::prelude::*;

verus! {

/// Additive constant of SplitMix64.
pub const SPLITMIX_GAMMA: u64 = 0x9E37_79B9_7F4A_7C15;

/// Rotate a 64-bit word left by `k` bits (`0 < k < 64`).
pub open spec fn rotl(x: u64, k: u64) -> u64
    recommends
        0 < k < 64,
{
    (x << k) | (x >> (64 - k) as u64)
}

/// Output finalizer of SplitMix64 applied to an advanced state.
pub open spec fn splitmix_mix(z: u64) -> u64 {
    let z1 = (z ^ (z >> 30u64)).wrapping_mul(0xBF58_476D_1CE4_E5B9);
    let z2 = (z1 ^ (z1 >> 27u64)).wrapping_mul(0x94D0_49BB_1331_11EB);
    z2 ^ (z2 >> 31u64)
}

/// The `k`-th SplitMix64 output (`k >= 1`) for a seed: the state advanced
/// `k` times by the gamma, then mixed.
pub open spec fn splitmix_output(seed: u64, k: nat) -> u64 {
    splitmix_mix(((seed as nat + k * SPLITMIX_GAMMA as nat) % 0x1_0000_0000_0000_0000) as u64)
}

/// The four state words of xoshiro256**, in storage order.
pub type Words = (u64, u64, u64, u64);

/// State words for a seed: the first four SplitMix64 outputs.
pub open spec fn seeded_words(seed: u64) -> Words {
    (
        splitmix_output(seed, 1),
        splitmix_output(seed, 2),
        splitmix_output(seed, 3),
        splitmix_output(seed, 4),
    )
}

/// xoshiro256** output of a state (computed before the state advances).
pub open spec fn xoshiro_output(s: Words) -> u64 {
    rotl(s.1.wrapping_mul(5), 7).wrapping_mul(9)
}

/// xoshiro256** state transition.
pub open spec fn xoshiro_step(s: Words) -> Words {
    let t = s.1 << 17u64;
    let s2 = s.2 ^ s.0;
    let s3 = s.3 ^ s.1;
    let s1 = s.1 ^ s2;
    let s0 = s.0 ^ s3;
    (s0, s1, s2 ^ t, rotl(s3, 45))
}

/// The state after `n` draws.
pub open spec fn xoshiro_advance(s: Words, n: nat) -> Words
    decreases n,
{
    if n == 0 {
        s
    } else {
        xoshiro_step(xoshiro_advance(s, (n - 1) as nat))
    }
}

/// The `n`-th raw output (0-based) from a state.
pub open spec fn xoshiro_nth(s: Words, n: nat) -> u64 {
    xoshiro_output(xoshiro_advance(s, n))
}

/// Whether all four words are zero (the one state xoshiro must never be in).
pub open spec fn all_zero(s: Words) -> bool {
    s.0 == 0 && s.1 == 0 && s.2 == 0 && s.3 == 0
}

/// Draws from the largest exact multiple of `width` below 2^64 map onto
/// `[0, width)` uniformly; draws at or above this threshold are rejected.
pub open spec fn rejection_threshold(width: u128) -> u128
    recommends
        width > 0,
{
    (0x1_0000_0000_0000_0000int - (0x1_0000_0000_0000_0000int % width as int)) as u128
}

/// How many rejected draws in a row [`Rng::next_u64_in`] tolerates before it
/// takes a draw as it is.
pub const MAX_REJECTED_DRAWS: u64 = u64::MAX;

/// Result and final state of a ranged draw: raw draws are taken until one
/// falls below the rejection threshold, with at most `fuel` rejections.
pub open spec fn draw_in(s: Words, start: u64, width: u128, fuel: nat) -> (u64, Words)
    decreases fuel,
{
    let x = xoshiro_output(s);
    let next = xoshiro_step(s);
    if (x as u128) < rejection_threshold(width) || fuel == 0 {
        ((start as int + (x as int % width as int)) as u64, next)
    } else {
        draw_in(next, start, width, (fuel - 1) as nat)
    }
}

/// SplitMix64: used only to expand a seed into the four xoshiro words.
struct SplitMix64 {
    state: u64,
}

impl SplitMix64 {
    fn next(&mut self) -> (out: u64)
        ensures
            final(self).state == old(self).state.wrapping_add(SPLITMIX_GAMMA),
            out == splitmix_mix(final(self).state),
    {
        self.state = self.state.wrapping_add(SPLITMIX_GAMMA);
        let mut z = self.state;
        z = (z ^ (z >> 30)).wrapping_mul(0xBF58_476D_1CE4_E5B9);
        z = (z ^ (z >> 27)).wrapping_mul(0x94D0_49BB_1331_11EB);
        z ^ (z >> 31)
    }
}

/// xoshiro256** generator seeded from a single `u64`.
#[derive(Debug, Clone, Copy, PartialEq, Eq, Structural)]
pub struct Rng {
    s0: u64,
    s1: u64,
    s2: u64,
    s3: u64,
}

impl View for Rng {
    type V = Words;

    /// The four state words in storage order.
    closed spec fn view(&self) -> Words {
        (self.s0, self.s1, self.s2, self.s3)
    }
}

/// Advancing the SplitMix64 state `k` times by the gamma is adding `k`
/// gammas modulo 2^64.
proof fn lemma_gamma_steps(seed: u64, k: nat)
    ensures
        ((seed as nat + (k + 1) * SPLITMIX_GAMMA as nat) % 0x1_0000_0000_0000_0000) as u64
            == (((seed as nat + k * SPLITMIX_GAMMA as nat) % 0x1_0000_0000_0000_0000) as u64).wrapping_add(SPLITMIX_GAMMA),
{
    let m: int = 0x1_0000_0000_0000_0000;
    let a: int = seed as int + k * SPLITMIX_GAMMA as int;
    let g: int = SPLITMIX_GAMMA as int;
    assert(a >= 0);
    vstd::arithmetic::div_mod::lemma_add_mod_noop(a, g, m);
    vstd::arithmetic::div_mod::lemma_mod_bound(a, m);
    vstd::arithmetic::div_mod::lemma_small_mod(g as nat, m as nat);
    assert((seed as nat + (k + 1) * SPLITMIX_GAMMA as nat) == a + g) by (nonlinear_arith)
        requires a == seed as int + k * SPLITMIX_GAMMA as int, g == SPLITMIX_GAMMA as int;
    let r = a % m;
    if r + g >= m {
        vstd::arithmetic::div_mod::lemma_mod_sub_multiples_vanish(r + g, m);
        vstd::arithmetic::div_mod::lemma_small_mod((r + g - m) as nat, m as nat);
    } else {
        vstd::arithmetic::div_mod::lemma_small_mod((r + g) as nat, m as nat);
    }
}

impl Rng {
    /// A generator is its four words: equal words, equal generators (so two
    /// generators from one seed are equal and draw the same stream).
    pub proof fn lemma_view_injective(a: Rng, b: Rng)
        ensures
            a@ == b@ <==> a == b,
    {
    }

    /// Create a generator from a seed: its four words are the first four
    /// SplitMix64 outputs for the seed.
    pub fn from_seed(seed: u64) -> (rng: Self)
        ensures
            rng@ == seeded_words(seed),
    {
        let mut seeder = SplitMix64 { state: seed };
        proof {
            lemma_gamma_steps(seed, 0);
        }
        let w0 = seeder.next();
        proof {
            lemma_gamma_steps(seed, 1);
        }
        let w1 = seeder.next();
        proof {
            lemma_gamma_steps(seed, 2);
        }
        let w2 = seeder.next();
        proof {
            lemma_gamma_steps(seed, 3);
        }
        let w3 = seeder.next();
        assert(seed as nat + 0 * SPLITMIX_GAMMA as nat == seed as nat);
        Rng { s0: w0, s1: w1, s2: w2, s3: w3 }
    }

    /// Next raw 64-bit value (one xoshiro256** step).
    pub fn next_u64(&mut self) -> (out: u64)
        ensures
            out == xoshiro_output(old(self)@),
            final(self)@ == xoshiro_step(old(self)@),
    {
        let m = self.s1.wrapping_mul(5);
        let result = ((m << 7) | (m >> 57)).wrapping_mul(9);
        let t = self.s1 << 17;
        self.s2 = self.s2 ^ self.s0;
        self.s3 = self.s3 ^ self.s1;
        self.s1 = self.s1 ^ self.s2;
        self.s0 = self.s0 ^ self.s3;
        self.s2 = self.s2 ^ t;
        self.s3 = (self.s3 << 45) | (self.s3 >> 19);
        result
    }

    /// Next `u64` in `range` (`[start, end)`), unbiased via rejection: raw draws at or
    /// above the largest exact multiple of the width are discarded and
    /// redrawn. After [`MAX_REJECTED_DRAWS`] rejections in a row the last
    /// draw is reduced as it is.
    ///
    /// The range must not be empty (drawing from it is a caller error).
    pub fn next_u64_in(&mut self, range: Range<u64>) -> (out: u64)
        requires
            range.start < range.end,
        ensures
            (out, final(self)@) == draw_in(
                old(self)@,
                range.start,
                (range.end - range.start) as u128,
                MAX_REJECTED_DRAWS as nat,
            ),
            range.start <= out < range.end,
    {
        let start = range.start;
        let end = range.end;
        let width: u128 = (end - start) as u128;
        let threshold: u128 = 0x1_0000_0000_0000_0000u128 - (0x1_0000_0000_0000_0000u128 % width);
        let ghost first = self@;
        let mut fuel: u64 = MAX_REJECTED_DRAWS;
        loop
            invariant
                first == old(self)@,
                start == range.start,
                end == range.end,
                width == end - start,
                0 < width,
                start < end,
                threshold == rejection_threshold(width),
                draw_in(self@, start, width, fuel as nat)
                    == draw_in(first, start, width, MAX_REJECTED_DRAWS as nat),
            decreases fuel,
        {
            let ghost before = self@;
            let x = self.next_u64();
            if (x as u128) < threshold || fuel == 0 {
                let offset = (x as u128) % width;
                assert(offset < width);
                let out = start + (offset as u64);
                assert(draw_in(before, start, width, fuel as nat) == (out, self@));
                return out;
            }
            fuel = fuel - 1;
        }
    }

    /// The four state words, in storage order.
    pub fn state_words(&self) -> (words: [u64; 4])
        ensures
            words@ == seq![self@.0, self@.1, self@.2, self@.3],
    {
        [self.s0, self.s1, self.s2, self.s3]
    }

    /// Rebuild a generator from stored words; `None` for the all-zero state,
    /// which xoshiro must never run from.
    pub fn from_state_words(words: [u64; 4]) -> (rng: Option<Self>)
        ensures
            rng is None <==> (words@[0] == 0 && words@[1] == 0 && words@[2] == 0 && words@[3] == 0),
            rng matches Some(r) ==> r@ == (words@[0], words@[1], words@[2], words@[3]),
    {
        if words[0] == 0 && words[1] == 0 && words[2] == 0 && words[3] == 0 {
            None
        } else {
            Some(Rng { s0: words[0], s1: words[1], s2: words[2], s3: words[3] })
        }
    }
}

/// The SplitMix64 finalizer maps only zero to zero.
proof fn lemma_mix_zero(z: u64)
    requires
        splitmix_mix(z) == 0,
    ensures
        z == 0,
{
    let z1 = (z ^ (z >> 30u64)).wrapping_mul(0xBF58_476D_1CE4_E5B9);
    let z2 = (z1 ^ (z1 >> 27u64)).wrapping_mul(0x94D0_49BB_1331_11EB);
    assert(z2 ^ (z2 >> 31u64) == 0u64 ==> z2 == 0u64) by (bit_vector);
    let a2 = z1 ^ (z1 >> 27u64);
    assert(z2 == ((a2 as nat * 0x94D0_49BB_1331_11EBnat) % 0x1_0000_0000_0000_0000nat) as u64);
    assert(((a2 * 0x94D0_49BB_1331_11EBu64) as u64) == 0u64 ==> a2 == 0u64) by (bit_vector);
    assert(a2 == 0) by {
        assert((a2 * 0x94D0_49BB_1331_11EBu64) as u64 == ((a2 as nat * 0x94D0_49BB_1331_11EBnat) % 0x1_0000_0000_0000_0000nat) as u64) by (bit_vector);
    }
    assert(a2 == 0u64 ==> z1 == 0u64) by (bit_vector)
        requires a2 == z1 ^ (z1 >> 27u64);
    let a1 = z ^ (z >> 30u64);
    assert(a1 == 0) by {
        assert((a1 * 0xBF58_476D_1CE4_E5B9u64) as u64 == ((a1 as nat * 0xBF58_476D_1CE4_E5B9nat) % 0x1_0000_0000_0000_0000nat) as u64) by (bit_vector);
        assert(((a1 * 0xBF58_476D_1CE4_E5B9u64) as u64) == 0u64 ==> a1 == 0u64) by (bit_vector);
    }
    assert(a1 == 0u64 ==> z == 0u64) by (bit_vector)
        requires a1 == z ^ (z >> 30u64);
}

/// A seeded generator never starts from the all-zero state.
pub proof fn lemma_seeded_words_not_all_zero(seed: u64)
    ensures
        !all_zero(seeded_words(seed)),
{
    if all_zero(seeded_words(seed)) {
        let m: int = 0x1_0000_0000_0000_0000;
        let a = (seed as nat + 1 * SPLITMIX_GAMMA as nat) % 0x1_0000_0000_0000_0000;
        let b = (seed as nat + 2 * SPLITMIX_GAMMA as nat) % 0x1_0000_0000_0000_0000;
        lemma_mix_zero(a as u64);
        lemma_mix_zero(b as u64);
        assert(a == 0 && b == 0);
        vstd::arithmetic::div_mod::lemma_mod_bound((seed as nat + SPLITMIX_GAMMA as nat) as int, m);
        vstd::arithmetic::div_mod::lemma_mod_bound((seed as nat + 2 * SPLITMIX_GAMMA as nat) as int, m);
        vstd::arithmetic::div_mod::lemma_fundamental_div_mod((seed as nat + SPLITMIX_GAMMA as nat) as int, m);
        vstd::arithmetic::div_mod::lemma_fundamental_div_mod((seed as nat + 2 * SPLITMIX_GAMMA as nat) as int, m);
        let q1 = (seed as nat + SPLITMIX_GAMMA as nat) as int / m;
        let q2 = (seed as nat + 2 * SPLITMIX_GAMMA as nat) as int / m;
        assert(SPLITMIX_GAMMA as int == m * (q2 - q1)) by (nonlinear_arith)
            requires
                (seed as nat + SPLITMIX_GAMMA as nat) as int == m * q1,
                (seed as nat + 2 * SPLITMIX_GAMMA as nat) as int == m * q2;
        assert(false) by (nonlinear_arith)
            requires
                SPLITMIX_GAMMA as int == m * (q2 - q1),
                m == 0x1_0000_0000_0000_0000int,
                0 < SPLITMIX_GAMMA < m;
    }
}

/// The xoshiro transition maps only the all-zero state to all zeros, so a
/// generator that is not all zero never becomes all zero by drawing.
pub proof fn lemma_step_not_all_zero(s: Words)
    requires
        !all_zero(s),
    ensures
        !all_zero(xoshiro_step(s)),
{
    let (a, b, c, d) = s;
    assert(((a ^ (d ^ b)) == 0u64 && (b ^ (c ^ a)) == 0u64 && ((c ^ a) ^ (b << 17u64)) == 0u64
        && (((d ^ b) << 45u64) | ((d ^ b) >> 19u64)) == 0u64) ==> (a == 0u64 && b == 0u64 && c == 0u64
        && d == 0u64)) by (bit_vector);
}

/// The SplitMix64 finalizer is injective: each of its steps (xor with a
/// right shift of itself, multiplication by an odd constant) can be undone.
proof fn lemma_mix_injective(a: u64, b: u64)
    requires
        splitmix_mix(a) == splitmix_mix(b),
    ensures
        a == b,
{
    let a1 = a ^ (a >> 30u64);
    let b1 = b ^ (b >> 30u64);
    let ya = a1.wrapping_mul(0xBF58_476D_1CE4_E5B9);
    let yb = b1.wrapping_mul(0xBF58_476D_1CE4_E5B9);
    let a2 = ya ^ (ya >> 27u64);
    let b2 = yb ^ (yb >> 27u64);
    let za = a2.wrapping_mul(0x94D0_49BB_1331_11EB);
    let zb = b2.wrapping_mul(0x94D0_49BB_1331_11EB);
    assert(za ^ (za >> 31u64) == zb ^ (zb >> 31u64));
    assert((za ^ (za >> 31u64)) == (zb ^ (zb >> 31u64)) ==> za == zb) by (bit_vector);
    assert((a2 * 0x94D0_49BB_1331_11EBu64) as u64 == ((a2 as nat * 0x94D0_49BB_1331_11EBnat) % 0x1_0000_0000_0000_0000nat) as u64) by (bit_vector);
    assert((b2 * 0x94D0_49BB_1331_11EBu64) as u64 == ((b2 as nat * 0x94D0_49BB_1331_11EBnat) % 0x1_0000_0000_0000_0000nat) as u64) by (bit_vector);
    assert((((a2 * 0x94D0_49BB_1331_11EBu64) as u64) * 0x3196_42B2_D24D_8EC3u64) as u64 == a2) by (bit_vector);
    assert((((b2 * 0x94D0_49BB_1331_11EBu64) as u64) * 0x3196_42B2_D24D_8EC3u64) as u64 == b2) by (bit_vector);
    assert(a2 == b2);
    assert((ya ^ (ya >> 27u64)) == (yb ^ (yb >> 27u64)) ==> ya == yb) by (bit_vector);
    assert((a1 * 0xBF58_476D_1CE4_E5B9u64) as u64 == ((a1 as nat * 0xBF58_476D_1CE4_E5B9nat) % 0x1_0000_0000_0000_0000nat) as u64) by (bit_vector);
    assert((b1 * 0xBF58_476D_1CE4_E5B9u64) as u64 == ((b1 as nat * 0xBF58_476D_1CE4_E5B9nat) % 0x1_0000_0000_0000_0000nat) as u64) by (bit_vector);
    assert((((a1 * 0xBF58_476D_1CE4_E5B9u64) as u64) * 0x96DE_1B17_3F11_9089u64) as u64 == a1) by (bit_vector);
    assert((((b1 * 0xBF58_476D_1CE4_E5B9u64) as u64) * 0x96DE_1B17_3F11_9089u64) as u64 == b1) by (bit_vector);
    assert(a1 == b1);
    assert((a ^ (a >> 30u64)) == (b ^ (b >> 30u64)) ==> a == b) by (bit_vector);
}

/// The four words a seed expands to are pairwise distinct, so at most one
/// of them is zero.
pub proof fn lemma_seeded_words_distinct(seed: u64)
    ensures
        ({
            let w = seeded_words(seed);
            &&& w.0 != w.1 && w.0 != w.2 && w.0 != w.3
            &&& w.1 != w.2 && w.1 != w.3
            &&& w.2 != w.3
        }),
        ({
            let w = seeded_words(seed);
            &&& w.0 == 0 ==> w.1 != 0 && w.2 != 0 && w.3 != 0
            &&& w.1 == 0 ==> w.0 != 0 && w.2 != 0 && w.3 != 0
            &&& w.2 == 0 ==> w.0 != 0 && w.1 != 0 && w.3 != 0
            &&& w.3 == 0 ==> w.0 != 0 && w.1 != 0 && w.2 != 0
        }),
{
    let m: nat = 0x1_0000_0000_0000_0000;
    let s1 = ((seed as nat + 1 * SPLITMIX_GAMMA as nat) % m) as u64;
    let s2 = ((seed as nat + 2 * SPLITMIX_GAMMA as nat) % m) as u64;
    let s3 = ((seed as nat + 3 * SPLITMIX_GAMMA as nat) % m) as u64;
    let s4 = ((seed as nat + 4 * SPLITMIX_GAMMA as nat) % m) as u64;
    lemma_gamma_steps(seed, 1);
    lemma_gamma_steps(seed, 2);
    lemma_gamma_steps(seed, 3);
    assert(s2 == s1.wrapping_add(SPLITMIX_GAMMA));
    assert(s3 == s2.wrapping_add(SPLITMIX_GAMMA));
    assert(s4 == s3.wrapping_add(SPLITMIX_GAMMA));
    assert(s1.wrapping_add(SPLITMIX_GAMMA) == (s1 + 0x9E37_79B9_7F4A_7C15u64) as u64) by (bit_vector);
    assert(s2.wrapping_add(SPLITMIX_GAMMA) == (s2 + 0x9E37_79B9_7F4A_7C15u64) as u64) by (bit_vector);
    assert(s3.wrapping_add(SPLITMIX_GAMMA) == (s3 + 0x9E37_79B9_7F4A_7C15u64) as u64) by (bit_vector);
    assert({
        let t2 = (s1 + 0x9E37_79B9_7F4A_7C15u64) as u64;
        let t3 = (t2 + 0x9E37_79B9_7F4A_7C15u64) as u64;
        let t4 = (t3 + 0x9E37_79B9_7F4A_7C15u64) as u64;
        s1 != t2 && s1 != t3 && s1 != t4 && t2 != t3 && t2 != t4 && t3 != t4
    }) by (bit_vector);
    let w = seeded_words(seed);
    if w.0 == w.1 {
        lemma_mix_injective(s1, s2);
    }
    if w.0 == w.2 {
        lemma_mix_injective(s1, s3);
    }
    if w.0 == w.3 {
        lemma_mix_injective(s1, s4);
    }
    if w.1 == w.2 {
        lemma_mix_injective(s2, s3);
    }
    if w.1 == w.3 {
        lemma_mix_injective(s2, s4);
    }
    if w.2 == w.3 {
        lemma_mix_injective(s3, s4);
    }
}

} // verus!
