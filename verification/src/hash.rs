//! FNV-1a 64-bit state hashing over an explicit field walk.
//!
//! The walk order is the hash format: tick, seed, the four generator
//! words, the rover count, then per rover in ascending-id order its id and
//! the bit patterns of position x/y, heading x/y and speed. Every word is
//! mixed in least-significant byte first. Command queues, scan buffers,
//! command progress and the id-issuer watermark are deliberately not part
//! of the walk.

use vstd::prelude::*;
use vstd::bytes::{spec_u64_to_le_bytes, spec_u64_to_le_bytes_open, spec_u64_to_le_bytes_to_open};

use crate::world::{RoverRecord, WorldState};

verus! {

/// FNV-1a offset basis (64-bit).
pub const FNV_OFFSET_BASIS: u64 = 0xcbf2_9ce4_8422_2325;

/// FNV-1a prime (64-bit).
pub const FNV_PRIME: u64 = 0x0000_0100_0000_01b3;

/// One FNV-1a round: xor the byte in, multiply by the prime (mod 2^64).
pub open spec fn fnv_step(h: u64, byte: u8) -> u64 {
    (h ^ (byte as u64)).wrapping_mul(FNV_PRIME)
}

/// FNV-1a state after mixing `bytes` in order, starting from `h`.
pub open spec fn fnv_fold(h: u64, bytes: Seq<u8>) -> u64
    decreases bytes.len(),
{
    if bytes.len() == 0 {
        h
    } else {
        fnv_step(fnv_fold(h, bytes.drop_last()), bytes.last())
    }
}

/// FNV-1a hash of a byte sequence.
pub open spec fn fnv1a(bytes: Seq<u8>) -> u64 {
    fnv_fold(FNV_OFFSET_BASIS, bytes)
}

/// Little-endian bytes of a sequence of words, word after word.
pub open spec fn words_le_bytes(words: Seq<u64>) -> Seq<u8>
    decreases words.len(),
{
    if words.len() == 0 {
        Seq::empty()
    } else {
        words_le_bytes(words.drop_last()) + spec_u64_to_le_bytes(words.last())
    }
}

/// The words one rover contributes to the walk.
pub open spec fn rover_walk(r: RoverRecord) -> Seq<u64> {
    seq![
        r.id@ as u64,
        r.fields.position_x,
        r.fields.position_y,
        r.fields.heading_x,
        r.fields.heading_y,
        r.fields.speed,
    ]
}

/// The words of all rovers, in order.
pub open spec fn rovers_walk(rovers: Seq<RoverRecord>) -> Seq<u64>
    decreases rovers.len(),
{
    if rovers.len() == 0 {
        Seq::empty()
    } else {
        rovers_walk(rovers.drop_last()) + rover_walk(rovers.last())
    }
}

/// The full word walk of a state.
pub open spec fn state_walk(state: WorldState) -> Seq<u64> {
    let w = state.rng_state()@;
    seq![state.current_tick(), state.world_seed(), w.0, w.1, w.2, w.3, state.rover_seq().len() as u64]
        + rovers_walk(state.rover_seq())
}

/// The hash of a state: FNV-1a over the little-endian bytes of its walk.
pub open spec fn spec_state_hash(state: WorldState) -> u64 {
    fnv1a(words_le_bytes(state_walk(state)))
}

/// Mixing two byte runs one after the other is mixing their concatenation.
pub proof fn lemma_fnv_fold_concat(h: u64, a: Seq<u8>, b: Seq<u8>)
    ensures
        fnv_fold(h, a + b) == fnv_fold(fnv_fold(h, a), b),
    decreases b.len(),
{
    if b.len() == 0 {
        assert(a + b =~= a);
    } else {
        lemma_fnv_fold_concat(h, a, b.drop_last());
        assert((a + b).drop_last() =~= a + b.drop_last());
        assert((a + b).last() == b.last());
    }
}

/// The bytes of a concatenated word walk are the concatenated bytes.
pub proof fn lemma_words_le_bytes_concat(a: Seq<u64>, b: Seq<u64>)
    ensures
        words_le_bytes(a + b) == words_le_bytes(a) + words_le_bytes(b),
    decreases b.len(),
{
    if b.len() == 0 {
        assert(a + b =~= a);
        assert(words_le_bytes(a) + words_le_bytes(b) =~= words_le_bytes(a));
    } else {
        lemma_words_le_bytes_concat(a, b.drop_last());
        assert((a + b).drop_last() =~= a + b.drop_last());
        assert(words_le_bytes(a) + words_le_bytes(b) =~= words_le_bytes(a) + words_le_bytes(b.drop_last())
            + spec_u64_to_le_bytes(b.last()));
    }
}

/// Each rover contributes six words to the walk, at its own position: the
/// words at `6 * i .. 6 * i + 6` are the `i`-th rover's id, position,
/// heading and speed.
pub proof fn lemma_rovers_walk_slots(rovers: Seq<RoverRecord>)
    ensures
        rovers_walk(rovers).len() == 6 * rovers.len(),
        forall|i: int|
            0 <= i < rovers.len() ==> #[trigger] rovers_walk(rovers).subrange(6 * i, 6 * i + 6) == seq![
                rovers[i].id@ as u64,
                rovers[i].fields.position_x,
                rovers[i].fields.position_y,
                rovers[i].fields.heading_x,
                rovers[i].fields.heading_y,
                rovers[i].fields.speed,
            ],
    decreases rovers.len(),
{
    if rovers.len() > 0 {
        let front = rovers.drop_last();
        lemma_rovers_walk_slots(front);
        let w = rovers_walk(rovers);
        assert(w == rovers_walk(front) + rover_walk(rovers.last()));
        assert forall|i: int| 0 <= i < rovers.len() implies #[trigger] w.subrange(6 * i, 6 * i + 6) == seq![
            rovers[i].id@ as u64,
            rovers[i].fields.position_x,
            rovers[i].fields.position_y,
            rovers[i].fields.heading_x,
            rovers[i].fields.heading_y,
            rovers[i].fields.speed,
        ] by {
            if i < rovers.len() - 1 {
                assert(front[i] == rovers[i]);
                assert(w.subrange(6 * i, 6 * i + 6) =~= rovers_walk(front).subrange(6 * i, 6 * i + 6));
            } else {
                assert(w.subrange(6 * i, 6 * i + 6) =~= rover_walk(rovers.last()));
            }
        }
    }
}

/// The walk of a state is seven header words (tick, seed, the four
/// generator words, the rover count) followed, for every rover in order,
/// by that rover's id, position, heading and speed at words
/// `7 + 6 * i .. 13 + 6 * i`.
pub proof fn lemma_state_walk_layout(state: WorldState)
    ensures
        state_walk(state).len() == 7 + 6 * state.rover_seq().len(),
        state_walk(state)[0] == state.current_tick(),
        state_walk(state)[1] == state.world_seed(),
        state_walk(state)[6] == state.rover_seq().len() as u64,
        forall|i: int|
            0 <= i < state.rover_seq().len() ==> #[trigger] state_walk(state).subrange(7 + 6 * i, 13 + 6 * i)
                == seq![
                state.rover_seq()[i].id@ as u64,
                state.rover_seq()[i].fields.position_x,
                state.rover_seq()[i].fields.position_y,
                state.rover_seq()[i].fields.heading_x,
                state.rover_seq()[i].fields.heading_y,
                state.rover_seq()[i].fields.speed,
            ],
{
    let rs = state.rover_seq();
    lemma_rovers_walk_slots(rs);
    let w = state_walk(state);
    let rw = rovers_walk(rs);
    assert forall|i: int| 0 <= i < rs.len() implies #[trigger] w.subrange(7 + 6 * i, 13 + 6 * i) == seq![
        rs[i].id@ as u64,
        rs[i].fields.position_x,
        rs[i].fields.position_y,
        rs[i].fields.heading_x,
        rs[i].fields.heading_y,
        rs[i].fields.speed,
    ] by {
        assert(w.subrange(7 + 6 * i, 13 + 6 * i) =~= rw.subrange(6 * i, 6 * i + 6));
    }
}

/// Two states whose walks are equal hold rovers with equal ids and fields,
/// in the same order: changing any rover's id, position, heading or speed
/// changes the walk that is hashed.
pub proof fn lemma_state_walk_sees_every_rover(a: WorldState, b: WorldState)
    requires
        state_walk(a) == state_walk(b),
    ensures
        a.rover_seq().len() == b.rover_seq().len(),
        forall|i: int|
            0 <= i < a.rover_seq().len() ==> (#[trigger] a.rover_seq()[i]).fields == b.rover_seq()[i].fields
                && a.rover_seq()[i].id@ as u64 == b.rover_seq()[i].id@ as u64,
{
    lemma_state_walk_layout(a);
    lemma_state_walk_layout(b);
    assert forall|i: int| 0 <= i < a.rover_seq().len() implies (#[trigger] a.rover_seq()[i]).fields
        == b.rover_seq()[i].fields && a.rover_seq()[i].id@ as u64 == b.rover_seq()[i].id@ as u64 by {
        let sa = state_walk(a).subrange(7 + 6 * i, 13 + 6 * i);
        let sb = state_walk(b).subrange(7 + 6 * i, 13 + 6 * i);
        assert(sa == sb);
        assert(sa[0] == sb[0] && sa[1] == sb[1] && sa[2] == sb[2] && sa[3] == sb[3] && sa[4] == sb[4] && sa[5]
            == sb[5]);
    }
}

/// Incremental FNV-1a 64-bit hasher.
#[derive(Debug, Clone, Copy, PartialEq, Eq, Structural)]
pub struct Fnv1a(u64);

impl View for Fnv1a {
    type V = u64;

    /// The current hash state.
    closed spec fn view(&self) -> u64 {
        self.0
    }
}

impl Default for Fnv1a {
    /// Same as `new`.
    fn default() -> (h: Self)
        ensures
            h@ == FNV_OFFSET_BASIS,
    {
        Fnv1a::new()
    }
}

impl Fnv1a {
    /// New hasher at the offset basis.
    pub fn new() -> (h: Self)
        ensures
            h@ == FNV_OFFSET_BASIS,
    {
        Fnv1a(FNV_OFFSET_BASIS)
    }

    /// Mix in one byte.
    pub fn write_u8(&mut self, byte: u8)
        ensures
            final(self)@ == fnv_step(old(self)@, byte),
    {
        self.0 = (self.0 ^ (byte as u64)).wrapping_mul(FNV_PRIME);
    }

    /// Mix in one `u64`, least-significant byte first.
    pub fn write_u64(&mut self, word: u64)
        ensures
            final(self)@ == fnv_fold(old(self)@, spec_u64_to_le_bytes(word)),
    {
        let ghost start = self@;
        let ghost bytes = spec_u64_to_le_bytes_open(word);
        proof {
            spec_u64_to_le_bytes_to_open(word);
        }
        let mut i: u64 = 0;
        while i < 8
            invariant
                i <= 8,
                bytes == spec_u64_to_le_bytes_open(word),
                self@ == fnv_fold(start, bytes.subrange(0, i as int)),
            decreases 8 - i,
        {
            let byte = ((word >> (i * 8)) & 0xff) as u8;
            assert(byte == bytes[i as int]) by {
                if i == 0 {
                    assert(word >> 0u64 == word) by (bit_vector);
                } else if i == 1 {
                    assert(i * 8 == 8);
                } else if i == 2 {
                    assert(i * 8 == 16);
                } else if i == 3 {
                    assert(i * 8 == 24);
                } else if i == 4 {
                    assert(i * 8 == 32);
                } else if i == 5 {
                    assert(i * 8 == 40);
                } else if i == 6 {
                    assert(i * 8 == 48);
                } else {
                    assert(i * 8 == 56);
                }
            }
            self.write_u8(byte);
            assert(bytes.subrange(0, i + 1).drop_last() =~= bytes.subrange(0, i as int));
            i = i + 1;
        }
        assert(bytes.subrange(0, 8) =~= bytes);
    }

    /// Mix in a run of bytes, in order.
    pub fn write_bytes(&mut self, bytes: &[u8])
        ensures
            final(self)@ == fnv_fold(old(self)@, bytes@),
    {
        let ghost start = self@;
        let mut i: usize = 0;
        while i < bytes.len()
            invariant
                i <= bytes@.len(),
                self@ == fnv_fold(start, bytes@.subrange(0, i as int)),
            decreases bytes@.len() - i,
        {
            self.write_u8(bytes[i]);
            assert(bytes@.subrange(0, i + 1).drop_last() =~= bytes@.subrange(0, i as int));
            i = i + 1;
        }
        assert(bytes@.subrange(0, bytes@.len() as int) =~= bytes@);
    }

    /// Finish and return the hash.
    pub fn finish(self) -> (hash: u64)
        ensures
            hash == self@,
    {
        self.0
    }
}

/// Mix in a word and extend the mixed walk accordingly.
fn write_walk_word(h: &mut Fnv1a, word: u64, Ghost(walk): Ghost<Seq<u64>>)
    requires
        old(h)@ == fnv1a(words_le_bytes(walk)),
    ensures
        final(h)@ == fnv1a(words_le_bytes(walk.push(word))),
{
    h.write_u64(word);
    proof {
        lemma_fnv_fold_concat(FNV_OFFSET_BASIS, words_le_bytes(walk), spec_u64_to_le_bytes(word));
        assert(walk.push(word).drop_last() =~= walk);
    }
}

/// Hash the full world state (field walk; see the module docs for the order).
pub fn state_hash(state: &WorldState) -> (hash: u64)
    ensures
        hash == spec_state_hash(*state),
        hash == fnv1a(words_le_bytes(state_walk(*state))),
{
    let mut h = Fnv1a::new();
    let ghost mut walk: Seq<u64> = Seq::empty();
    assert(h@ == fnv1a(words_le_bytes(walk)));
    let tick = state.tick();
    let seed = state.seed();
    write_walk_word(&mut h, tick, Ghost(walk));
    proof { walk = walk.push(tick); }
    write_walk_word(&mut h, seed, Ghost(walk));
    proof { walk = walk.push(seed); }
    let words = state.rng().state_words();
    write_walk_word(&mut h, words[0], Ghost(walk));
    proof { walk = walk.push(words[0]); }
    write_walk_word(&mut h, words[1], Ghost(walk));
    proof { walk = walk.push(words[1]); }
    write_walk_word(&mut h, words[2], Ghost(walk));
    proof { walk = walk.push(words[2]); }
    write_walk_word(&mut h, words[3], Ghost(walk));
    proof { walk = walk.push(words[3]); }
    let rovers = state.rovers();
    write_walk_word(&mut h, rovers.len() as u64, Ghost(walk));
    proof { walk = walk.push(rovers.len() as u64); }
    let ghost header = walk;
    assert(header =~= seq![state.current_tick(), state.world_seed(), state.rng_state()@.0, state.rng_state()@.1,
        state.rng_state()@.2, state.rng_state()@.3, state.rover_seq().len() as u64]);
    let mut i: usize = 0;
    while i < rovers.len()
        invariant
            i <= rovers@.len(),
            rovers@ == state.rover_seq(),
            walk == header + rovers_walk(rovers@.subrange(0, i as int)),
            h@ == fnv1a(words_le_bytes(walk)),
        decreases rovers@.len() - i,
    {
        let r = rovers[i];
        let ghost before = walk;
        let raw_id = r.id.raw() as u64;
        write_walk_word(&mut h, raw_id, Ghost(walk));
        proof { walk = walk.push(raw_id); }
        write_walk_word(&mut h, r.fields.position_x, Ghost(walk));
        proof { walk = walk.push(r.fields.position_x); }
        write_walk_word(&mut h, r.fields.position_y, Ghost(walk));
        proof { walk = walk.push(r.fields.position_y); }
        write_walk_word(&mut h, r.fields.heading_x, Ghost(walk));
        proof { walk = walk.push(r.fields.heading_x); }
        write_walk_word(&mut h, r.fields.heading_y, Ghost(walk));
        proof { walk = walk.push(r.fields.heading_y); }
        write_walk_word(&mut h, r.fields.speed, Ghost(walk));
        proof {
            walk = walk.push(r.fields.speed);
            assert(walk =~= before + rover_walk(r));
            let sub = rovers@.subrange(0, i + 1);
            assert(sub.drop_last() =~= rovers@.subrange(0, i as int));
            assert(sub.last() == r);
            assert(rovers_walk(sub) == rovers_walk(sub.drop_last()) + rover_walk(sub.last()));
            assert(walk =~= header + rovers_walk(sub));
        }
        i = i + 1;
    }
    assert(rovers@.subrange(0, rovers@.len() as int) =~= rovers@);
    h.finish()
}

} // verus!
