//! Snapshot serialization of [`WorldState`].
//!
//! # Byte format (schema version 2)
//!
//! Little-endian everywhere:
//!
//! ```text
//! offset  size  field
//! 0       4     magic: ASCII "NEGN"
//! 4       4     schema version: u32, currently 2
//! 8       8     tick: u64
//! 16      8     seed: u64
//! 24      32    generator state words s0..s3: 4 x u64
//! 56      8     rover count: u64
//! 64      44*n  rovers, ascending id, each:
//!               +0   id: u32
//!               +4   position.x bits: u64
//!               +12  position.y bits: u64
//!               +20  heading.x bits: u64
//!               +28  heading.y bits: u64
//!               +36  speed bits: u64
//! ...     4     next rover id (id-issuer watermark): u32
//! ```
//!
//! The body follows the state-hash walk order; the trailing watermark is
//! snapshot-only and keeps restored worlds from re-issuing used ids.
//! Command queues, scan buffers and command progress are not serialized.

use vstd::prelude::*;
use vstd::bytes::{
    spec_u32_from_le_bytes, spec_u32_to_le_bytes, spec_u64_from_le_bytes, spec_u64_to_le_bytes,
    u32_from_le_bytes, u32_to_le_bytes, u64_from_le_bytes, u64_to_le_bytes,
};

use crate::ids::RoverId;
use crate::text::{debug_rendering, debug_string, decimal, push_char, push_decimal, u64_to_decimal};
use crate::rng::Rng;
use crate::world::{ids_ascending, ids_below, RoverFields, RoverRecord, WorldState};

verus! {

/// Magic bytes at the start of every snapshot: ASCII `NEGN`.
pub const MAGIC: [u8; 4] = [0x4e, 0x45, 0x47, 0x4e];

/// Current snapshot schema version; [`from_bytes`] accepts only this one.
pub const SNAPSHOT_VERSION: u32 = 2;

/// Size of one serialized rover: id (u32) and five u64 bit patterns.
pub const ROVER_BYTES: u64 = 44;

/// Size of the fixed header (magic through rover count).
pub const HEADER_BYTES: usize = 64;

/// Reason given when the generator words are all zero.
pub const REASON_RNG_ZERO: &'static str = "rng state words are all zero";
/// Reason given when the rover count does not fit the size arithmetic.
pub const REASON_COUNT_OVERFLOW: &'static str = "rover count overflows u64";
/// Reason given for a rover with id 0.
pub const REASON_ID_ZERO: &'static str = "rover id 0 is reserved";
/// Reason given for a rover id that occurs twice.
pub const REASON_DUPLICATE: &'static str = "duplicate rover id";
/// Reason given for a zero id-issuer watermark.
pub const REASON_NEXT_ZERO: &'static str = "next rover id 0 is reserved";
/// Reason given for a rover id at or above the watermark.
pub const REASON_WATERMARK: &'static str = "rover id beyond the id-issuer watermark";

/// Failures of [`from_bytes`]; each variant says exactly what was wrong.
#[derive(Debug, Clone, PartialEq, Eq)]
#[allow(inconsistent_fields)]
pub enum SnapshotError {
    /// First four bytes are not `NEGN`.
    BadMagic {
        /// The four bytes actually found.
        found: [u8; 4],
    },
    /// Schema version is not [`SNAPSHOT_VERSION`].
    UnsupportedVersion {
        /// Version found in the header.
        found: u32,
    },
    /// Buffer ends before the announced structure does.
    UnexpectedEof {
        /// Total length a complete snapshot of this shape would need.
        needed: usize,
        /// Actual buffer length.
        available: usize,
    },
    /// Well-formed snapshot followed by extra bytes.
    TrailingBytes {
        /// Number of unread bytes after the snapshot.
        extra: usize,
    },
    /// Structurally valid bytes, semantically impossible content.
    Malformed {
        /// What exactly is wrong.
        reason: &'static str,
    },
}

/// The four magic bytes read as Latin-1 characters.
pub open spec fn latin1(found: [u8; 4]) -> Seq<char> {
    seq![found@[0] as char, found@[1] as char, found@[2] as char, found@[3] as char]
}

/// Readable description of a snapshot error.
pub open spec fn error_text(e: SnapshotError) -> Seq<char> {
    match e {
        SnapshotError::BadMagic { found } => "bad magic "@ + debug_rendering(latin1(found))
            + " (expected \"NEGN\")"@,
        SnapshotError::UnsupportedVersion { found } => "unsupported snapshot schema version "@ + decimal(
            found as nat,
        ) + " (supported: "@ + decimal(SNAPSHOT_VERSION as nat) + ")"@,
        SnapshotError::UnexpectedEof { needed, available } => "snapshot ends early: needed "@ + decimal(
            needed as nat,
        ) + " bytes, available "@ + decimal(available as nat),
        SnapshotError::TrailingBytes { extra } => decimal(extra as nat) + " trailing bytes after the snapshot"@,
        SnapshotError::Malformed { reason } => "malformed snapshot: "@ + reason@,
    }
}

/// The bad-magic text around the quoted bytes that were found.
pub fn bad_magic_message(quoted: &str) -> (text: String)
    ensures
        text@ == "bad magic "@ + quoted@ + " (expected \"NEGN\")"@,
{
    let mut text = String::from_str("bad magic ");
    text.append(quoted);
    text.append(" (expected \"NEGN\")");
    text
}

impl SnapshotError {
    /// Readable description of the error (what `Display` shows).
    pub fn message(&self) -> (text: String)
        ensures
            text@ == error_text(*self),
    {
        match self {
            SnapshotError::BadMagic { found } => {
                let mut shown = String::new();
                push_char(&mut shown, found[0] as char);
                push_char(&mut shown, found[1] as char);
                push_char(&mut shown, found[2] as char);
                push_char(&mut shown, found[3] as char);
                assert(shown@ =~= latin1(*found));
                let quoted = debug_string(shown.as_str());
                bad_magic_message(quoted.as_str())
            },
            SnapshotError::UnsupportedVersion { found } => {
                let mut text = String::from_str("unsupported snapshot schema version ");
                push_decimal(&mut text, *found as u64);
                text.append(" (supported: ");
                push_decimal(&mut text, SNAPSHOT_VERSION as u64);
                text.append(")");
                text
            },
            SnapshotError::UnexpectedEof { needed, available } => {
                let mut text = String::from_str("snapshot ends early: needed ");
                push_decimal(&mut text, *needed as u64);
                text.append(" bytes, available ");
                push_decimal(&mut text, *available as u64);
                text
            },
            SnapshotError::TrailingBytes { extra } => {
                let mut text = u64_to_decimal(*extra as u64);
                text.append(" trailing bytes after the snapshot");
                text
            },
            SnapshotError::Malformed { reason } => {
                let mut text = String::from_str("malformed snapshot: ");
                text.append(reason);
                text
            },
        }
    }
}

// ---------------------------------------------------------------------
// Encoding
// ---------------------------------------------------------------------

/// The magic as a byte sequence.
pub open spec fn magic_bytes() -> Seq<u8> {
    seq![0x4eu8, 0x45u8, 0x47u8, 0x4eu8]
}

/// Serialized form of one rover.
pub open spec fn rover_bytes(r: RoverRecord) -> Seq<u8> {
    spec_u32_to_le_bytes(r.id@) + spec_u64_to_le_bytes(r.fields.position_x) + spec_u64_to_le_bytes(
        r.fields.position_y,
    ) + spec_u64_to_le_bytes(r.fields.heading_x) + spec_u64_to_le_bytes(r.fields.heading_y)
        + spec_u64_to_le_bytes(r.fields.speed)
}

/// Serialized form of a rover sequence, rover after rover.
pub open spec fn rovers_bytes(rovers: Seq<RoverRecord>) -> Seq<u8>
    decreases rovers.len(),
{
    if rovers.len() == 0 {
        Seq::empty()
    } else {
        rovers_bytes(rovers.drop_last()) + rover_bytes(rovers.last())
    }
}

/// Serialized header: magic, version, tick, seed, generator words, count.
pub open spec fn header_bytes(state: WorldState) -> Seq<u8> {
    let w = state.rng_state()@;
    magic_bytes() + spec_u32_to_le_bytes(SNAPSHOT_VERSION) + spec_u64_to_le_bytes(state.current_tick())
        + spec_u64_to_le_bytes(state.world_seed()) + spec_u64_to_le_bytes(w.0) + spec_u64_to_le_bytes(w.1)
        + spec_u64_to_le_bytes(w.2) + spec_u64_to_le_bytes(w.3) + spec_u64_to_le_bytes(
        state.rover_seq().len() as u64,
    )
}

/// The full snapshot of a state.
pub open spec fn encode(state: WorldState) -> Seq<u8> {
    header_bytes(state) + rovers_bytes(state.rover_seq()) + spec_u32_to_le_bytes(state.watermark())
}

/// Append the little-endian bytes of a `u32`.
fn write_u32(out: &mut Vec<u8>, value: u32)
    ensures
        final(out)@ == old(out)@ + spec_u32_to_le_bytes(value),
{
    let mut bytes = u32_to_le_bytes(value);
    out.append(&mut bytes);
}

/// Append the little-endian bytes of a `u64`.
fn write_u64(out: &mut Vec<u8>, value: u64)
    ensures
        final(out)@ == old(out)@ + spec_u64_to_le_bytes(value),
{
    let mut bytes = u64_to_le_bytes(value);
    out.append(&mut bytes);
}

/// Serialize the full world state (see the byte format in the module docs).
pub fn to_bytes(state: &WorldState) -> (out: Vec<u8>)
    ensures
        out@ == encode(*state),
{
    let mut out: Vec<u8> = Vec::with_capacity(64 + 44 + 4);
    out.push(MAGIC[0]);
    out.push(MAGIC[1]);
    out.push(MAGIC[2]);
    out.push(MAGIC[3]);
    assert(out@ =~= magic_bytes());
    write_u32(&mut out, SNAPSHOT_VERSION);
    write_u64(&mut out, state.tick());
    write_u64(&mut out, state.seed());
    let words = state.rng().state_words();
    write_u64(&mut out, words[0]);
    write_u64(&mut out, words[1]);
    write_u64(&mut out, words[2]);
    write_u64(&mut out, words[3]);
    let rovers = state.rovers();
    write_u64(&mut out, rovers.len() as u64);
    let ghost header = out@;
    assert(header == header_bytes(*state));
    let mut i: usize = 0;
    while i < rovers.len()
        invariant
            i <= rovers@.len(),
            rovers@ == state.rover_seq(),
            out@ == header + rovers_bytes(rovers@.subrange(0, i as int)),
        decreases rovers@.len() - i,
    {
        let r = rovers[i];
        let ghost before = out@;
        write_u32(&mut out, r.id.raw());
        write_u64(&mut out, r.fields.position_x);
        write_u64(&mut out, r.fields.position_y);
        write_u64(&mut out, r.fields.heading_x);
        write_u64(&mut out, r.fields.heading_y);
        write_u64(&mut out, r.fields.speed);
        proof {
            let sub = rovers@.subrange(0, i + 1);
            assert(sub.drop_last() =~= rovers@.subrange(0, i as int));
            assert(out@ =~= before + rover_bytes(r));
            assert(out@ =~= header + rovers_bytes(sub));
        }
        i = i + 1;
    }
    assert(rovers@.subrange(0, rovers@.len() as int) =~= rovers@);
    write_u32(&mut out, state.next_rover_id());
    out
}

// ---------------------------------------------------------------------
// Decoding
// ---------------------------------------------------------------------

/// Little-endian `u32` at a byte offset.
pub open spec fn le_u32_at(d: Seq<u8>, off: int) -> u32 {
    spec_u32_from_le_bytes(d.subrange(off, off + 4))
}

/// Little-endian `u64` at a byte offset.
pub open spec fn le_u64_at(d: Seq<u8>, off: int) -> u64 {
    spec_u64_from_le_bytes(d.subrange(off, off + 8))
}

/// The end-of-input error for a read that needed `needed` bytes in total
/// (saturating at `usize::MAX`).
pub open spec fn eof_at(d: Seq<u8>, needed: int) -> SnapshotError {
    SnapshotError::UnexpectedEof {
        needed: if needed > usize::MAX { usize::MAX } else { needed as usize },
        available: d.len() as usize,
    }
}

/// Announced rover count.
pub open spec fn rover_count(d: Seq<u8>) -> u64 {
    le_u64_at(d, 56)
}

/// Bytes announced after the header: the rovers and the watermark.
pub open spec fn body_len(d: Seq<u8>) -> int {
    rover_count(d) as int * ROVER_BYTES as int + 4
}

/// Offset of the `i`-th serialized rover.
pub open spec fn rover_offset(i: int) -> int {
    HEADER_BYTES as int + ROVER_BYTES as int * i
}

/// Raw id of the `i`-th serialized rover.
pub open spec fn rover_id_at(d: Seq<u8>, i: int) -> u32 {
    le_u32_at(d, rover_offset(i))
}

/// The `i`-th serialized rover.
pub open spec fn rover_at(d: Seq<u8>, i: int) -> RoverRecord {
    let off = rover_offset(i);
    RoverRecord {
        id: RoverId::of_raw(le_u32_at(d, off)),
        fields: RoverFields {
            position_x: le_u64_at(d, off + 4),
            position_y: le_u64_at(d, off + 12),
            heading_x: le_u64_at(d, off + 20),
            heading_y: le_u64_at(d, off + 28),
            speed: le_u64_at(d, off + 36),
        },
    }
}

/// The first `n` serialized rovers, in input order.
pub open spec fn decoded_rovers(d: Seq<u8>, n: nat) -> Seq<RoverRecord> {
    Seq::new(n, |i: int| rover_at(d, i))
}

/// The first problem among the first `n` serialized rovers, in input
/// order: a zero id, or an id that an earlier rover already has.
pub open spec fn rover_problem(d: Seq<u8>, n: nat) -> Option<&'static str>
    decreases n,
{
    if n == 0 {
        None
    } else {
        let prev = rover_problem(d, (n - 1) as nat);
        if prev is Some {
            prev
        } else if rover_id_at(d, n - 1) == 0 {
            Some(REASON_ID_ZERO)
        } else if exists|j: int| 0 <= j < n - 1 && #[trigger] rover_id_at(d, j) == rover_id_at(d, n - 1) {
            Some(REASON_DUPLICATE)
        } else {
            None
        }
    }
}

/// The stored id-issuer watermark.
pub open spec fn watermark_at(d: Seq<u8>) -> u32 {
    le_u32_at(d, rover_offset(rover_count(d) as int))
}

/// Where a snapshot of the announced shape ends.
pub open spec fn end_of_snapshot(d: Seq<u8>) -> int {
    HEADER_BYTES as int + body_len(d)
}

/// Why `d` is not a valid snapshot (the first check that fails, in read
/// order), or `None` when it is one.
pub open spec fn decode_error(d: Seq<u8>) -> Option<SnapshotError> {
    let len = d.len();
    if len < 4 {
        Some(eof_at(d, 4))
    } else if d.subrange(0, 4) != magic_bytes() {
        Some(SnapshotError::BadMagic { found: [d[0], d[1], d[2], d[3]] })
    } else if len < 8 {
        Some(eof_at(d, 8))
    } else if le_u32_at(d, 4) != SNAPSHOT_VERSION {
        Some(SnapshotError::UnsupportedVersion { found: le_u32_at(d, 4) })
    } else if len < 16 {
        Some(eof_at(d, 16))
    } else if len < 24 {
        Some(eof_at(d, 24))
    } else if len < 32 {
        Some(eof_at(d, 32))
    } else if len < 40 {
        Some(eof_at(d, 40))
    } else if len < 48 {
        Some(eof_at(d, 48))
    } else if len < 56 {
        Some(eof_at(d, 56))
    } else if le_u64_at(d, 24) == 0 && le_u64_at(d, 32) == 0 && le_u64_at(d, 40) == 0 && le_u64_at(d, 48)
        == 0 {
        Some(SnapshotError::Malformed { reason: REASON_RNG_ZERO })
    } else if len < 64 {
        Some(eof_at(d, 64))
    } else if body_len(d) > u64::MAX {
        Some(SnapshotError::Malformed { reason: REASON_COUNT_OVERFLOW })
    } else if body_len(d) > len - HEADER_BYTES {
        Some(eof_at(d, end_of_snapshot(d)))
    } else if rover_problem(d, rover_count(d) as nat) is Some {
        Some(SnapshotError::Malformed { reason: rover_problem(d, rover_count(d) as nat)->0 })
    } else if watermark_at(d) == 0 {
        Some(SnapshotError::Malformed { reason: REASON_NEXT_ZERO })
    } else if exists|i: int| 0 <= i < rover_count(d) && #[trigger] rover_id_at(d, i) >= watermark_at(d) {
        Some(SnapshotError::Malformed { reason: REASON_WATERMARK })
    } else if len != end_of_snapshot(d) {
        Some(SnapshotError::TrailingBytes { extra: (len - end_of_snapshot(d)) as usize })
    } else {
        None
    }
}

/// The schema version is checked right after the magic: a buffer that
/// starts with the magic and carries another version is rejected as an
/// unsupported version naming the version found, whatever follows (short,
/// malformed or with trailing bytes).
pub proof fn lemma_version_checked_first(d: Seq<u8>)
    requires
        d.len() >= 8,
        d.subrange(0, 4) == magic_bytes(),
        spec_u32_from_le_bytes(d.subrange(4, 8)) != SNAPSHOT_VERSION,
    ensures
        decode_error(d) == Some(SnapshotError::UnsupportedVersion { found: spec_u32_from_le_bytes(d.subrange(4, 8)) }),
{
}

/// Two buffers that agree on their first eight bytes, a magic followed by
/// an unsupported version, get the same decoding error.
pub proof fn lemma_version_error_ignores_rest(a: Seq<u8>, b: Seq<u8>)
    requires
        a.len() >= 8,
        b.len() >= 8,
        a.subrange(0, 8) == b.subrange(0, 8),
        a.subrange(0, 4) == magic_bytes(),
        spec_u32_from_le_bytes(a.subrange(4, 8)) != SNAPSHOT_VERSION,
    ensures
        decode_error(a) == decode_error(b),
        decode_error(a) is Some,
{
    assert(b.subrange(0, 4) =~= a.subrange(0, 8).subrange(0, 4));
    assert(a.subrange(0, 4) =~= a.subrange(0, 8).subrange(0, 4));
    assert(b.subrange(4, 8) =~= a.subrange(0, 8).subrange(4, 8));
    assert(a.subrange(4, 8) =~= a.subrange(0, 8).subrange(4, 8));
    lemma_version_checked_first(a);
    lemma_version_checked_first(b);
}

/// `state` is what the valid snapshot `d` describes: header values, the
/// watermark, and the serialized rovers re-ordered by ascending id.
pub open spec fn decodes_to(d: Seq<u8>, state: WorldState) -> bool {
    &&& state.wf()
    &&& state.current_tick() == le_u64_at(d, 8)
    &&& state.world_seed() == le_u64_at(d, 16)
    &&& state.rng_state()@ == (le_u64_at(d, 24), le_u64_at(d, 32), le_u64_at(d, 40), le_u64_at(d, 48))
    &&& state.watermark() == watermark_at(d)
    &&& state.rover_seq().len() == rover_count(d)
    &&& forall|r: RoverRecord|
        state.rover_seq().contains(r) <==> decoded_rovers(d, rover_count(d) as nat).contains(r)
}

/// Once a rover problem is found, it stays the first one.
proof fn lemma_rover_problem_stable(d: Seq<u8>, n: nat, m: nat)
    requires
        n <= m,
        rover_problem(d, n) is Some,
    ensures
        rover_problem(d, m) == rover_problem(d, n),
    decreases m - n,
{
    if n < m {
        lemma_rover_problem_stable(d, n, (m - 1) as nat);
    }
}

/// Without a problem among the first `n` rovers, their ids are non-zero
/// and pairwise distinct.
proof fn lemma_rover_problem_none(d: Seq<u8>, n: nat)
    requires
        rover_problem(d, n) is None,
    ensures
        forall|i: int| 0 <= i < n ==> rover_id_at(d, i) != 0,
        forall|i: int, j: int| 0 <= i < j < n ==> rover_id_at(d, i) != rover_id_at(d, j),
    decreases n,
{
    if n > 0 {
        lemma_rover_problem_none(d, (n - 1) as nat);
    }
}

/// Cursor over the input buffer.
struct Reader<'a> {
    data: &'a [u8],
    pos: usize,
}

impl<'a> Reader<'a> {
    fn new(data: &'a [u8]) -> (r: Reader<'a>)
        ensures
            r.data == data,
            r.pos == 0,
    {
        Reader { data, pos: 0 }
    }

    fn remaining(&self) -> (n: usize)
        requires
            self.pos <= self.data@.len(),
        ensures
            n == self.data@.len() - self.pos,
    {
        self.data.len() - self.pos
    }

    fn take(&mut self, n: usize) -> (res: Result<&'a [u8], SnapshotError>)
        requires
            old(self).pos <= old(self).data@.len(),
        ensures
            final(self).data == old(self).data,
            final(self).pos <= final(self).data@.len(),
            old(self).pos + n <= old(self).data@.len() ==> (res matches Ok(s) && s@
                == old(self).data@.subrange(old(self).pos as int, old(self).pos + n) && final(self).pos
                == old(self).pos + n),
            old(self).pos + n > old(self).data@.len() ==> res == Err::<&'a [u8], SnapshotError>(
                eof_at(old(self).data@, old(self).pos + n),
            ) && final(self).pos == old(self).pos,
    {
        let len = self.data.len();
        if self.remaining() < n {
            return Err(
                SnapshotError::UnexpectedEof { needed: self.pos.saturating_add(n), available: self.data.len() },
            );
        }
        let slice = vstd::slice::slice_subrange(self.data, self.pos, self.pos + n);
        self.pos = self.pos + n;
        Ok(slice)
    }

    fn read_u32(&mut self) -> (res: Result<u32, SnapshotError>)
        requires
            old(self).pos <= old(self).data@.len(),
        ensures
            final(self).data == old(self).data,
            final(self).pos <= final(self).data@.len(),
            old(self).pos + 4 <= old(self).data@.len() ==> res == Ok::<u32, SnapshotError>(
                le_u32_at(old(self).data@, old(self).pos as int),
            ) && final(self).pos == old(self).pos + 4,
            old(self).pos + 4 > old(self).data@.len() ==> res == Err::<u32, SnapshotError>(
                eof_at(old(self).data@, old(self).pos + 4),
            ),
    {
        match self.take(4) {
            Ok(bytes) => Ok(u32_from_le_bytes(bytes)),
            Err(e) => Err(e),
        }
    }

    fn read_u64(&mut self) -> (res: Result<u64, SnapshotError>)
        requires
            old(self).pos <= old(self).data@.len(),
        ensures
            final(self).data == old(self).data,
            final(self).pos <= final(self).data@.len(),
            old(self).pos + 8 <= old(self).data@.len() ==> res == Ok::<u64, SnapshotError>(
                le_u64_at(old(self).data@, old(self).pos as int),
            ) && final(self).pos == old(self).pos + 8,
            old(self).pos + 8 > old(self).data@.len() ==> res == Err::<u64, SnapshotError>(
                eof_at(old(self).data@, old(self).pos + 8),
            ),
    {
        match self.take(8) {
            Ok(bytes) => Ok(u64_from_le_bytes(bytes)),
            Err(e) => Err(e),
        }
    }
}

/// Insert a record into an ascending registry at its place; `false` (and no
/// change) when its id is already present.
fn insert_by_id(rovers: &mut Vec<RoverRecord>, record: RoverRecord) -> (inserted: bool)
    requires
        ids_ascending(old(rovers)@),
    ensures
        inserted == !(exists|j: int| 0 <= j < old(rovers)@.len() && old(rovers)@[j].id@ == record.id@),
        inserted ==> ids_ascending(final(rovers)@),
        inserted ==> final(rovers)@.len() == old(rovers)@.len() + 1,
        inserted ==> forall|x: RoverRecord|
            final(rovers)@.contains(x) <==> (old(rovers)@.contains(x) || x == record),
        !inserted ==> final(rovers)@ == old(rovers)@,
{
    let mut k: usize = 0;
    while k < rovers.len() && rovers[k].id.raw() < record.id.raw()
        invariant
            k <= rovers@.len(),
            ids_ascending(rovers@),
            forall|j: int| 0 <= j < k ==> rovers@[j].id@ < record.id@,
        decreases rovers@.len() - k,
    {
        k = k + 1;
    }
    if k < rovers.len() && rovers[k].id.raw() == record.id.raw() {
        return false;
    }
    let ghost old_seq = rovers@;
    rovers.insert(k, record);
    proof {
        let new_seq = rovers@;
        assert(new_seq == old_seq.insert(k as int, record));
        assert forall|j: int| k < j < old_seq.len() implies record.id@ < old_seq[j].id@ by {
            assert(old_seq[k as int].id@ < old_seq[j].id@);
        }
        assert forall|a: int, b: int| 0 <= a < b < new_seq.len() implies new_seq[a].id@ < new_seq[b].id@ by {
            if b < k {
            } else if b == k {
            } else if a < k {
                assert(new_seq[b] == old_seq[b - 1]);
            } else if a == k {
                assert(new_seq[b] == old_seq[b - 1]);
            } else {
                assert(new_seq[a] == old_seq[a - 1]);
                assert(new_seq[b] == old_seq[b - 1]);
            }
        }
        assert forall|x: RoverRecord| new_seq.contains(x) <==> (old_seq.contains(x) || x == record) by {
            if new_seq.contains(x) {
                let j = choose|j: int| 0 <= j < new_seq.len() && new_seq[j] == x;
                if j < k {
                    assert(old_seq[j] == x);
                } else if j > k {
                    assert(old_seq[j - 1] == x);
                }
            }
            if old_seq.contains(x) {
                let j = choose|j: int| 0 <= j < old_seq.len() && old_seq[j] == x;
                if j < k {
                    assert(new_seq[j] == x);
                } else {
                    assert(new_seq[j + 1] == x);
                }
            }
            if x == record {
                assert(new_seq[k as int] == x);
            }
        }
        assert forall|j: int| 0 <= j < old_seq.len() implies old_seq[j].id@ != record.id@ by {
            if j >= k {
                if j > k {
                    assert(old_seq[k as int].id@ < old_seq[j].id@);
                }
            }
        }
    }
    true
}

/// Deserialize a world state produced by [`to_bytes`].
///
/// Strictly validates everything the header and structure promise: magic,
/// schema version, buffer length, per-rover plausibility (ids non-zero,
/// unique, below the issuer watermark), and no trailing bytes. Rovers may
/// appear in any order; the result holds them by ascending id.
pub fn from_bytes(data: &[u8]) -> (res: Result<WorldState, SnapshotError>)
    ensures
        res is Ok <==> decode_error(data@) is None,
        res matches Err(e) ==> decode_error(data@) == Some(e),
        res matches Ok(state) ==> decodes_to(data@, state),
        data@.len() >= 8 && data@.subrange(0, 4) == magic_bytes() && spec_u32_from_le_bytes(data@.subrange(4, 8))
            != SNAPSHOT_VERSION ==> res == Err::<WorldState, SnapshotError>(
            SnapshotError::UnsupportedVersion { found: spec_u32_from_le_bytes(data@.subrange(4, 8)) },
        ),
{
    let ghost d = data@;
    proof {
        if d.len() >= 8 && d.subrange(0, 4) == magic_bytes() && spec_u32_from_le_bytes(d.subrange(4, 8))
            != SNAPSHOT_VERSION {
            lemma_version_checked_first(d);
        }
    }
    let mut r = Reader::new(data);
    let magic = match r.take(4) {
        Ok(bytes) => bytes,
        Err(e) => return Err(e),
    };
    if !(magic[0] == MAGIC[0] && magic[1] == MAGIC[1] && magic[2] == MAGIC[2] && magic[3] == MAGIC[3]) {
        proof {
            assert(d.subrange(0, 4) != magic_bytes()) by {
                if d.subrange(0, 4) == magic_bytes() {
                    assert(magic@[0] == d.subrange(0, 4)[0]);
                    assert(magic@[1] == d.subrange(0, 4)[1]);
                    assert(magic@[2] == d.subrange(0, 4)[2]);
                    assert(magic@[3] == d.subrange(0, 4)[3]);
                }
            }
        }
        return Err(SnapshotError::BadMagic { found: [magic[0], magic[1], magic[2], magic[3]] });
    }
    assert(d.subrange(0, 4) =~= magic_bytes());
    let version = match r.read_u32() {
        Ok(v) => v,
        Err(e) => return Err(e),
    };
    if version != SNAPSHOT_VERSION {
        return Err(SnapshotError::UnsupportedVersion { found: version });
    }
    let tick = match r.read_u64() {
        Ok(v) => v,
        Err(e) => return Err(e),
    };
    let seed = match r.read_u64() {
        Ok(v) => v,
        Err(e) => return Err(e),
    };
    let w0 = match r.read_u64() {
        Ok(v) => v,
        Err(e) => return Err(e),
    };
    let w1 = match r.read_u64() {
        Ok(v) => v,
        Err(e) => return Err(e),
    };
    let w2 = match r.read_u64() {
        Ok(v) => v,
        Err(e) => return Err(e),
    };
    let w3 = match r.read_u64() {
        Ok(v) => v,
        Err(e) => return Err(e),
    };
    let rng = match Rng::from_state_words([w0, w1, w2, w3]) {
        Some(rng) => rng,
        None => return Err(SnapshotError::Malformed { reason: REASON_RNG_ZERO }),
    };
    let count = match r.read_u64() {
        Ok(v) => v,
        Err(e) => return Err(e),
    };
    assert(count == rover_count(d));
    // Sanity-check the announced count against the remaining bytes before
    // reading any rover.
    let needed = match count.checked_mul(ROVER_BYTES) {
        Some(n) => n,
        None => return Err(SnapshotError::Malformed { reason: REASON_COUNT_OVERFLOW }),
    };
    let needed = match needed.checked_add(4) {
        Some(n) => n,
        None => return Err(SnapshotError::Malformed { reason: REASON_COUNT_OVERFLOW }),
    };
    assert(needed == body_len(d));
    if needed > r.remaining() as u64 {
        let total: u128 = r.pos as u128 + needed as u128;
        let shown: usize = if total > usize::MAX as u128 {
            usize::MAX
        } else {
            total as usize
        };
        return Err(SnapshotError::UnexpectedEof { needed: shown, available: data.len() });
    }
    let mut rovers: Vec<RoverRecord> = Vec::new();
    let mut i: u64 = 0;
    while i < count
        invariant
            d == data@,
            r.data == data,
            count == rover_count(d),
            i <= count,
            r.pos == rover_offset(i as int),
            d.len() >= end_of_snapshot(d),
            body_len(d) <= u64::MAX,
            d.subrange(0, 4) == magic_bytes(),
            le_u32_at(d, 4) == SNAPSHOT_VERSION,
            !(le_u64_at(d, 24) == 0 && le_u64_at(d, 32) == 0 && le_u64_at(d, 40) == 0 && le_u64_at(d, 48) == 0),
            rovers@.len() == i,
            ids_ascending(rovers@),
            rover_problem(d, i as nat) is None,
            forall|x: RoverRecord| rovers@.contains(x) <==> decoded_rovers(d, i as nat).contains(x),
        decreases count - i,
    {
        let ghost off = r.pos as int;
        assert(off + 44 <= end_of_snapshot(d)) by (nonlinear_arith)
            requires
                off == 64 + 44 * (i as int),
                i < count,
                end_of_snapshot(d) == 64 + count as int * 44 + 4,
        ;
        let raw_id = match r.read_u32() {
            Ok(v) => v,
            Err(e) => return Err(e),
        };
        let x = match r.read_u64() {
            Ok(v) => v,
            Err(e) => return Err(e),
        };
        let y = match r.read_u64() {
            Ok(v) => v,
            Err(e) => return Err(e),
        };
        let hx = match r.read_u64() {
            Ok(v) => v,
            Err(e) => return Err(e),
        };
        let hy = match r.read_u64() {
            Ok(v) => v,
            Err(e) => return Err(e),
        };
        let speed = match r.read_u64() {
            Ok(v) => v,
            Err(e) => return Err(e),
        };
        assert(raw_id == rover_id_at(d, i as int));
        if raw_id == 0 {
            proof {
                assert(rover_problem(d, (i + 1) as nat) == Some(REASON_ID_ZERO));
                lemma_rover_problem_stable(d, (i + 1) as nat, count as nat);
            }
            return Err(SnapshotError::Malformed { reason: REASON_ID_ZERO });
        }
        let record = RoverRecord {
            id: RoverId::from_raw(raw_id),
            fields: RoverFields { position_x: x, position_y: y, heading_x: hx, heading_y: hy, speed },
        };
        assert(record == rover_at(d, i as int));
        let ghost before = rovers@;
        if !insert_by_id(&mut rovers, record) {
            proof {
                let j = choose|j: int| 0 <= j < before.len() && before[j].id@ == record.id@;
                assert(before.contains(before[j]));
                assert(decoded_rovers(d, i as nat).contains(before[j]));
                let k = choose|k: int| 0 <= k < i && decoded_rovers(d, i as nat)[k] == before[j];
                RoverId::lemma_of_raw(rover_id_at(d, k));
                RoverId::lemma_of_raw(raw_id);
                assert(rover_id_at(d, k) == rover_id_at(d, i as int));
                assert(rover_problem(d, (i + 1) as nat) == Some(REASON_DUPLICATE));
                lemma_rover_problem_stable(d, (i + 1) as nat, count as nat);
            }
            return Err(SnapshotError::Malformed { reason: REASON_DUPLICATE });
        }
        proof {
            assert forall|j: int| 0 <= j < i implies #[trigger] rover_id_at(d, j) != rover_id_at(d, i as int) by {
                let rec = decoded_rovers(d, i as nat)[j];
                assert(decoded_rovers(d, i as nat).contains(rec));
                assert(before.contains(rec));
                let m = choose|m: int| 0 <= m < before.len() && before[m] == rec;
                RoverId::lemma_of_raw(rover_id_at(d, j));
                RoverId::lemma_of_raw(raw_id);
            }
            assert(rover_problem(d, (i + 1) as nat) is None);
            assert forall|x: RoverRecord| rovers@.contains(x) <==> decoded_rovers(d, (i + 1) as nat).contains(x) by {
                let prev = decoded_rovers(d, i as nat);
                let next = decoded_rovers(d, (i + 1) as nat);
                assert(next =~= prev.push(record));
                if next.contains(x) {
                    let k = choose|k: int| 0 <= k < next.len() && next[k] == x;
                    if k < i {
                        assert(prev[k] == x);
                    }
                }
                if prev.contains(x) {
                    let k = choose|k: int| 0 <= k < prev.len() && prev[k] == x;
                    assert(next[k] == x);
                }
                if x == record {
                    assert(next[i as int] == x);
                }
            }
        }
        i = i + 1;
    }
    let next_rover_id = match r.read_u32() {
        Ok(v) => v,
        Err(e) => return Err(e),
    };
    assert(next_rover_id == watermark_at(d));
    if next_rover_id == 0 {
        return Err(SnapshotError::Malformed { reason: REASON_NEXT_ZERO });
    }
    let n = rovers.len();
    if n > 0 && rovers[n - 1].id.raw() >= next_rover_id {
        proof {
            let last = rovers@[n - 1];
            assert(rovers@.contains(last));
            let k = choose|k: int| 0 <= k < count && decoded_rovers(d, count as nat)[k] == last;
            RoverId::lemma_of_raw(rover_id_at(d, k));
            assert(rover_id_at(d, k) >= watermark_at(d));
        }
        return Err(SnapshotError::Malformed { reason: REASON_WATERMARK });
    }
    proof {
        assert forall|k: int| 0 <= k < count implies #[trigger] rover_id_at(d, k) < watermark_at(d) by {
            let rec = decoded_rovers(d, count as nat)[k];
            assert(decoded_rovers(d, count as nat).contains(rec));
            assert(rovers@.contains(rec));
            let m = choose|m: int| 0 <= m < rovers@.len() && rovers@[m] == rec;
            RoverId::lemma_of_raw(rover_id_at(d, k));
            if m < n - 1 {
                assert(rovers@[m].id@ < rovers@[n - 1].id@);
            }
        }
        lemma_rover_problem_none(d, count as nat);
        assert forall|k: int| 0 <= k < rovers@.len() implies 0 < #[trigger] rovers@[k].id@ < next_rover_id by {
            let rec = rovers@[k];
            assert(rovers@.contains(rec));
            let m = choose|m: int| 0 <= m < count && decoded_rovers(d, count as nat)[m] == rec;
            RoverId::lemma_of_raw(rover_id_at(d, m));
        }
    }
    if r.remaining() != 0 {
        return Err(SnapshotError::TrailingBytes { extra: r.remaining() });
    }
    Ok(WorldState::from_parts(tick, seed, rovers, next_rover_id, rng))
}

// ---------------------------------------------------------------------
// Round trip
// ---------------------------------------------------------------------

/// The fields that a snapshot carries agree between two states.
pub open spec fn same_snapshot_content(a: WorldState, b: WorldState) -> bool {
    &&& a.current_tick() == b.current_tick()
    &&& a.world_seed() == b.world_seed()
    &&& a.rng_state()@ == b.rng_state()@
    &&& a.watermark() == b.watermark()
    &&& a.rover_seq() == b.rover_seq()
}

proof fn lemma_le_lengths(v: u64, w: u32)
    ensures
        spec_u64_to_le_bytes(v).len() == 8,
        spec_u32_to_le_bytes(w).len() == 4,
        spec_u64_from_le_bytes(spec_u64_to_le_bytes(v)) == v,
        spec_u32_from_le_bytes(spec_u32_to_le_bytes(w)) == w,
{
    vstd::bytes::lemma_auto_spec_u64_to_from_le_bytes();
    vstd::bytes::lemma_auto_spec_u32_to_from_le_bytes();
}

proof fn lemma_rover_bytes(r: RoverRecord)
    ensures
        rover_bytes(r).len() == 44,
        spec_u32_from_le_bytes(rover_bytes(r).subrange(0, 4)) == r.id@,
        spec_u64_from_le_bytes(rover_bytes(r).subrange(4, 12)) == r.fields.position_x,
        spec_u64_from_le_bytes(rover_bytes(r).subrange(12, 20)) == r.fields.position_y,
        spec_u64_from_le_bytes(rover_bytes(r).subrange(20, 28)) == r.fields.heading_x,
        spec_u64_from_le_bytes(rover_bytes(r).subrange(28, 36)) == r.fields.heading_y,
        spec_u64_from_le_bytes(rover_bytes(r).subrange(36, 44)) == r.fields.speed,
{
    let f = r.fields;
    lemma_le_lengths(f.position_x, r.id@);
    lemma_le_lengths(f.position_y, r.id@);
    lemma_le_lengths(f.heading_x, r.id@);
    lemma_le_lengths(f.heading_y, r.id@);
    lemma_le_lengths(f.speed, r.id@);
    let b = rover_bytes(r);
    assert(b.subrange(0, 4) =~= spec_u32_to_le_bytes(r.id@));
    assert(b.subrange(4, 12) =~= spec_u64_to_le_bytes(f.position_x));
    assert(b.subrange(12, 20) =~= spec_u64_to_le_bytes(f.position_y));
    assert(b.subrange(20, 28) =~= spec_u64_to_le_bytes(f.heading_x));
    assert(b.subrange(28, 36) =~= spec_u64_to_le_bytes(f.heading_y));
    assert(b.subrange(36, 44) =~= spec_u64_to_le_bytes(f.speed));
}

proof fn lemma_rovers_bytes(rs: Seq<RoverRecord>)
    ensures
        rovers_bytes(rs).len() == 44 * rs.len(),
        forall|i: int| 0 <= i < rs.len() ==> #[trigger] rovers_bytes(rs).subrange(44 * i, 44 * i + 44)
            == rover_bytes(rs[i]),
    decreases rs.len(),
{
    if rs.len() > 0 {
        let init = rs.drop_last();
        lemma_rovers_bytes(init);
        lemma_rover_bytes(rs.last());
        let b = rovers_bytes(rs);
        assert forall|i: int| 0 <= i < rs.len() implies #[trigger] b.subrange(44 * i, 44 * i + 44) == rover_bytes(
            rs[i],
        ) by {
            if i < rs.len() - 1 {
                assert(rovers_bytes(init).subrange(44 * i, 44 * i + 44) == rover_bytes(init[i]));
                assert(b.subrange(44 * i, 44 * i + 44) =~= rovers_bytes(init).subrange(44 * i, 44 * i + 44));
            } else {
                assert(b.subrange(44 * i, 44 * i + 44) =~= rover_bytes(rs.last()));
            }
        }
    }
}

/// Strictly ascending `u32` ids leave room for at most 2^32 rovers.
proof fn lemma_ascending_len(rs: Seq<RoverRecord>)
    requires
        ids_ascending(rs),
    ensures
        rs.len() <= 0x1_0000_0000,
{
    assert forall|i: int| 0 <= i < rs.len() implies #[trigger] rs[i].id@ >= i by {
        lemma_ascending_floor(rs, i);
    }
    if rs.len() > 0x1_0000_0000 {
        assert(rs[0x1_0000_0000int].id@ >= 0x1_0000_0000int);
    }
}

proof fn lemma_ascending_floor(rs: Seq<RoverRecord>, i: int)
    requires
        ids_ascending(rs),
        0 <= i < rs.len(),
    ensures
        rs[i].id@ >= i,
    decreases i,
{
    if i > 0 {
        lemma_ascending_floor(rs, i - 1);
    }
}

/// Serialized ids that are those of an ascending, non-zero registry show no
/// rover problem.
proof fn lemma_no_rover_problem(d: Seq<u8>, rs: Seq<RoverRecord>, m: nat)
    requires
        ids_ascending(rs),
        forall|i: int| 0 <= i < rs.len() ==> 0 < #[trigger] rs[i].id@,
        m <= rs.len(),
        forall|i: int| 0 <= i < rs.len() ==> #[trigger] rover_id_at(d, i) == rs[i].id@,
    ensures
        rover_problem(d, m) is None,
    decreases m,
{
    if m > 0 {
        lemma_no_rover_problem(d, rs, (m - 1) as nat);
        assert(rover_id_at(d, m - 1) == rs[m - 1].id@);
        assert forall|j: int| 0 <= j < m - 1 implies #[trigger] rover_id_at(d, j) != rover_id_at(d, m - 1) by {
            assert(rover_id_at(d, j) == rs[j].id@);
        }
    }
}

/// Two id-ascending rover sequences with the same elements are equal.
pub proof fn lemma_ascending_unique(a: Seq<RoverRecord>, b: Seq<RoverRecord>)
    requires
        ids_ascending(a),
        ids_ascending(b),
        a.len() == b.len(),
        forall|x: RoverRecord| a.contains(x) <==> b.contains(x),
    ensures
        a == b,
{
    assert forall|i: int| 0 <= i < a.len() implies a[i] == b[i] by {
        lemma_ascending_unique_at(a, b, i);
    }
    assert(a =~= b);
}

proof fn lemma_ascending_unique_at(a: Seq<RoverRecord>, b: Seq<RoverRecord>, i: int)
    requires
        ids_ascending(a),
        ids_ascending(b),
        a.len() == b.len(),
        forall|x: RoverRecord| a.contains(x) <==> b.contains(x),
        0 <= i < a.len(),
    ensures
        a[i] == b[i],
    decreases i,
{
    if i > 0 {
        lemma_ascending_unique_at(a, b, i - 1);
    }
    assert forall|m: int| 0 <= m < i implies a[m] == b[m] by {
        lemma_ascending_unique_at(a, b, m);
    }
    assert(a.contains(a[i]));
    let j = choose|j: int| 0 <= j < b.len() && b[j] == a[i];
    assert(b.contains(b[i]));
    let k = choose|k: int| 0 <= k < a.len() && a[k] == b[i];
    if j < i {
        assert(a[j] == b[j]);
    } else if j > i {
        if k < i {
            assert(a[k] == b[k]);
        } else if k > i {
            assert(a[i].id@ < a[k].id@);
            assert(b[i].id@ < b[j].id@);
        }
    }
}

/// Decoding the snapshot of a well-formed state gives that state back: no
/// check fails, and every state the bytes decode to carries the same tick,
/// seed, generator, watermark and rovers.
pub proof fn lemma_snapshot_roundtrip(state: WorldState)
    requires
        state.wf(),
    ensures
        decode_error(encode(state)) is None,
        forall|t: WorldState| decodes_to(encode(state), t) ==> same_snapshot_content(state, t),
{
    let d = encode(state);
    let rs = state.rover_seq();
    let n: int = rs.len() as int;
    let w = state.rng_state()@;
    lemma_ascending_len(rs);
    lemma_le_lengths(state.current_tick(), SNAPSHOT_VERSION);
    lemma_le_lengths(state.world_seed(), state.watermark());
    lemma_le_lengths(w.0, 0);
    lemma_le_lengths(w.1, 0);
    lemma_le_lengths(w.2, 0);
    lemma_le_lengths(w.3, 0);
    lemma_le_lengths(n as u64, 0);
    lemma_rovers_bytes(rs);
    let h = header_bytes(state);
    assert(h.len() == 64);
    let body = rovers_bytes(rs);
    assert(d.len() == 64 + 44 * n + 4);
    assert(d.subrange(0, 4) =~= magic_bytes());
    assert(d.subrange(4, 8) =~= spec_u32_to_le_bytes(SNAPSHOT_VERSION));
    assert(d.subrange(8, 16) =~= spec_u64_to_le_bytes(state.current_tick()));
    assert(d.subrange(16, 24) =~= spec_u64_to_le_bytes(state.world_seed()));
    assert(d.subrange(24, 32) =~= spec_u64_to_le_bytes(w.0));
    assert(d.subrange(32, 40) =~= spec_u64_to_le_bytes(w.1));
    assert(d.subrange(40, 48) =~= spec_u64_to_le_bytes(w.2));
    assert(d.subrange(48, 56) =~= spec_u64_to_le_bytes(w.3));
    assert(d.subrange(56, 64) =~= spec_u64_to_le_bytes(n as u64));
    assert(rover_count(d) == n);
    assert(d.subrange(64 + 44 * n, 64 + 44 * n + 4) =~= spec_u32_to_le_bytes(state.watermark()));
    assert(watermark_at(d) == state.watermark());
    assert forall|i: int| 0 <= i < n implies #[trigger] rover_at(d, i) == rs[i] by {
        let off = rover_offset(i);
        lemma_rover_bytes(rs[i]);
        assert(body.subrange(44 * i, 44 * i + 44) == rover_bytes(rs[i]));
        let rb = rover_bytes(rs[i]);
        assert(d.subrange(off, off + 4) =~= rb.subrange(0, 4));
        assert(d.subrange(off + 4, off + 12) =~= rb.subrange(4, 12));
        assert(d.subrange(off + 12, off + 20) =~= rb.subrange(12, 20));
        assert(d.subrange(off + 20, off + 28) =~= rb.subrange(20, 28));
        assert(d.subrange(off + 28, off + 36) =~= rb.subrange(28, 36));
        assert(d.subrange(off + 36, off + 44) =~= rb.subrange(36, 44));
        RoverId::lemma_of_raw(rs[i].id@);
        RoverId::lemma_view_injective(RoverId::of_raw(rs[i].id@), rs[i].id);
    }
    assert forall|i: int| 0 <= i < n implies #[trigger] rover_id_at(d, i) == rs[i].id@ by {
        assert(rover_at(d, i) == rs[i]);
        RoverId::lemma_of_raw(rover_id_at(d, i));
    }
    lemma_no_rover_problem(d, rs, n as nat);
    assert(decoded_rovers(d, n as nat) =~= rs);
    assert forall|t: WorldState| decodes_to(d, t) implies same_snapshot_content(state, t) by {
        lemma_ascending_unique(t.rover_seq(), rs);
    }
}

/// States with the same snapshot content hash the same: the state hash
/// walks exactly the fields a snapshot carries (and no more).
pub proof fn lemma_same_content_same_hash(a: WorldState, b: WorldState)
    requires
        same_snapshot_content(a, b),
    ensures
        crate::hash::spec_state_hash(a) == crate::hash::spec_state_hash(b),
{
}

/// What every valid snapshot holds: its length is exactly the announced
/// shape, the header checks pass, and the serialized ids are non-zero,
/// pairwise distinct and below the stored watermark.
proof fn lemma_valid_facts(d: Seq<u8>)
    requires
        decode_error(d) is None,
    ensures
        d.len() >= 68,
        d.len() == end_of_snapshot(d),
        d.subrange(0, 4) == magic_bytes(),
        le_u32_at(d, 4) == SNAPSHOT_VERSION,
        !(le_u64_at(d, 24) == 0 && le_u64_at(d, 32) == 0 && le_u64_at(d, 40) == 0 && le_u64_at(d, 48) == 0),
        body_len(d) <= u64::MAX,
        rover_problem(d, rover_count(d) as nat) is None,
        watermark_at(d) != 0,
        forall|i: int| 0 <= i < rover_count(d) ==> #[trigger] rover_id_at(d, i) < watermark_at(d),
        forall|i: int| 0 <= i < rover_count(d) ==> #[trigger] rover_id_at(d, i) != 0,
{
    lemma_rover_problem_none(d, rover_count(d) as nat);
}

/// The rover problem depends on the serialized ids alone.
proof fn lemma_rover_problem_same(d: Seq<u8>, e: Seq<u8>, n: nat)
    requires
        forall|j: int| 0 <= j < n ==> #[trigger] rover_id_at(d, j) == rover_id_at(e, j),
    ensures
        rover_problem(d, n) == rover_problem(e, n),
    decreases n,
{
    if n > 0 {
        lemma_rover_problem_same(d, e, (n - 1) as nat);
        assert(rover_id_at(d, n - 1) == rover_id_at(e, n - 1));
        if exists|j: int| 0 <= j < n - 1 && #[trigger] rover_id_at(d, j) == rover_id_at(d, n - 1) {
            let j = choose|j: int| 0 <= j < n - 1 && #[trigger] rover_id_at(d, j) == rover_id_at(d, n - 1);
            assert(rover_id_at(e, j) == rover_id_at(e, n - 1));
        }
        if exists|j: int| 0 <= j < n - 1 && #[trigger] rover_id_at(e, j) == rover_id_at(e, n - 1) {
            let j = choose|j: int| 0 <= j < n - 1 && #[trigger] rover_id_at(e, j) == rover_id_at(e, n - 1);
            assert(rover_id_at(d, j) == rover_id_at(d, n - 1));
        }
    }
}

/// Every strict prefix of a valid snapshot is refused as ending early,
/// with the length it has as available and more than that as needed (at
/// most the full length).
pub proof fn lemma_truncated_snapshot(d: Seq<u8>, len: int)
    requires
        decode_error(d) is None,
        0 <= len < d.len(),
        d.len() <= usize::MAX,
    ensures
        decode_error(d.take(len)) matches Some(SnapshotError::UnexpectedEof { needed, available })
            && available == len && len < needed <= d.len(),
{
    lemma_valid_facts(d);
    let p = d.take(len);
    assert(p.len() == len);
    if len >= 4 {
        assert(p.subrange(0, 4) =~= d.subrange(0, 4));
    }
    if len >= 8 {
        assert(p.subrange(4, 8) =~= d.subrange(4, 8));
    }
    if len >= 56 {
        assert(p.subrange(24, 32) =~= d.subrange(24, 32));
        assert(p.subrange(32, 40) =~= d.subrange(32, 40));
        assert(p.subrange(40, 48) =~= d.subrange(40, 48));
        assert(p.subrange(48, 56) =~= d.subrange(48, 56));
    }
    if len >= 64 {
        assert(p.subrange(56, 64) =~= d.subrange(56, 64));
        assert(rover_count(p) == rover_count(d));
        assert(body_len(p) > len - HEADER_BYTES);
    }
}

/// A valid snapshot followed by extra bytes is refused for exactly those
/// trailing bytes.
pub proof fn lemma_trailing_snapshot(d: Seq<u8>, extra: Seq<u8>)
    requires
        decode_error(d) is None,
        extra.len() >= 1,
        d.len() + extra.len() <= usize::MAX,
    ensures
        decode_error(d + extra) == Some(SnapshotError::TrailingBytes { extra: extra.len() as usize }),
{
    lemma_valid_facts(d);
    let e = d + extra;
    assert(e.subrange(0, d.len() as int) =~= d);
    assert forall|a: int, b: int| 0 <= a <= b <= d.len() implies e.subrange(a, b) == d.subrange(a, b) by {
        assert(e.subrange(a, b) =~= d.subrange(a, b));
    }
    assert(e.subrange(0, 4) == d.subrange(0, 4));
    assert(le_u32_at(e, 4) == le_u32_at(d, 4));
    assert(le_u64_at(e, 24) == le_u64_at(d, 24));
    assert(le_u64_at(e, 32) == le_u64_at(d, 32));
    assert(le_u64_at(e, 40) == le_u64_at(d, 40));
    assert(le_u64_at(e, 48) == le_u64_at(d, 48));
    assert(rover_count(e) == rover_count(d));
    let n = rover_count(d) as int;
    assert forall|j: int| 0 <= j < n implies #[trigger] rover_id_at(d, j) == rover_id_at(e, j) by {
        assert(rover_offset(j) + 4 <= d.len()) by (nonlinear_arith)
            requires
                0 <= j < n,
                d.len() == 64 + n * 44 + 4,
                rover_offset(j) == 64 + 44 * j,
        ;
        assert(e.subrange(rover_offset(j), rover_offset(j) + 4) == d.subrange(rover_offset(j), rover_offset(j) + 4));
    }
    lemma_rover_problem_same(d, e, n as nat);
    assert(watermark_at(e) == watermark_at(d));
    if exists|i: int| 0 <= i < rover_count(e) && #[trigger] rover_id_at(e, i) >= watermark_at(e) {
        let i = choose|i: int| 0 <= i < rover_count(e) && #[trigger] rover_id_at(e, i) >= watermark_at(e);
        assert(rover_id_at(d, i) < watermark_at(d));
    }
}

/// `d` with the four bytes at `off` replaced by the little-endian bytes of
/// `v`.
pub open spec fn with_u32_at(d: Seq<u8>, off: int, v: u32) -> Seq<u8> {
    d.take(off) + spec_u32_to_le_bytes(v) + d.skip(off + 4)
}

/// Ids that are non-zero and pairwise distinct show no rover problem.
proof fn lemma_distinct_no_problem(d: Seq<u8>, n: nat)
    requires
        forall|j: int| 0 <= j < n ==> #[trigger] rover_id_at(d, j) != 0,
        forall|a: int, b: int| 0 <= a < b < n ==> rover_id_at(d, a) != rover_id_at(d, b),
    ensures
        rover_problem(d, n) is None,
    decreases n,
{
    if n > 0 {
        lemma_distinct_no_problem(d, (n - 1) as nat);
        assert(rover_id_at(d, n - 1) != 0);
        if exists|j: int| 0 <= j < n - 1 && #[trigger] rover_id_at(d, j) == rover_id_at(d, n - 1) {
            let j = choose|j: int| 0 <= j < n - 1 && #[trigger] rover_id_at(d, j) == rover_id_at(d, n - 1);
            assert(rover_id_at(d, j) != rover_id_at(d, n - 1));
        }
    }
}

/// Replacing the four bytes at a rover-record or watermark offset of a
/// valid snapshot keeps its length and header, and changes only the value
/// read at that offset.
proof fn lemma_with_u32_at(d: Seq<u8>, k: int, v: u32)
    requires
        decode_error(d) is None,
        0 <= k <= rover_count(d),
    ensures
        with_u32_at(d, rover_offset(k), v).len() == d.len(),
        rover_count(with_u32_at(d, rover_offset(k), v)) == rover_count(d),
        ({
            let e = with_u32_at(d, rover_offset(k), v);
            &&& e.subrange(0, 4) == d.subrange(0, 4)
            &&& le_u32_at(e, 4) == le_u32_at(d, 4)
            &&& le_u64_at(e, 24) == le_u64_at(d, 24)
            &&& le_u64_at(e, 32) == le_u64_at(d, 32)
            &&& le_u64_at(e, 40) == le_u64_at(d, 40)
            &&& le_u64_at(e, 48) == le_u64_at(d, 48)
        }),
        le_u32_at(with_u32_at(d, rover_offset(k), v), rover_offset(k)) == v,
        forall|j: int|
            0 <= j < rover_count(d) && j != k ==> #[trigger] rover_id_at(with_u32_at(d, rover_offset(k), v), j)
                == rover_id_at(d, j),
        k < rover_count(d) ==> watermark_at(with_u32_at(d, rover_offset(k), v)) == watermark_at(d),
{
    lemma_valid_facts(d);
    lemma_le_lengths(0, v);
    let n = rover_count(d) as int;
    let off = rover_offset(k);
    let e = with_u32_at(d, off, v);
    assert(off + 4 <= d.len()) by (nonlinear_arith)
        requires
            0 <= k <= n,
            d.len() == 64 + n * 44 + 4,
            off == 64 + 44 * k,
    ;
    assert(e.len() == d.len());
    assert forall|a: int, b: int| 0 <= a <= b <= off implies e.subrange(a, b) == d.subrange(a, b) by {
        assert(e.subrange(a, b) =~= d.subrange(a, b));
    }
    assert forall|a: int, b: int| off + 4 <= a <= b <= d.len() implies e.subrange(a, b) == d.subrange(a, b) by {
        assert(e.subrange(a, b) =~= d.subrange(a, b));
    }
    assert(e.subrange(off, off + 4) =~= spec_u32_to_le_bytes(v));
    assert(e.subrange(56, 64) == d.subrange(56, 64));
    assert forall|j: int| 0 <= j < n && j != k implies #[trigger] rover_id_at(e, j) == rover_id_at(d, j) by {
        let o = rover_offset(j);
        if j < k {
            assert(o + 4 <= off) by (nonlinear_arith)
                requires
                    j < k,
                    o == 64 + 44 * j,
                    off == 64 + 44 * k,
            ;
        } else {
            assert(off + 4 <= o && o + 4 <= d.len()) by (nonlinear_arith)
                requires
                    k < j < n,
                    o == 64 + 44 * j,
                    off == 64 + 44 * k,
                    d.len() == 64 + n * 44 + 4,
            ;
        }
        assert(e.subrange(o, o + 4) == d.subrange(o, o + 4));
    }
    if k < n {
        let o = rover_offset(n);
        assert(off + 4 <= o && o + 4 <= d.len()) by (nonlinear_arith)
            requires
                k < n,
                o == 64 + 44 * n,
                off == 64 + 44 * k,
                d.len() == 64 + n * 44 + 4,
        ;
        assert(e.subrange(o, o + 4) == d.subrange(o, o + 4));
    }
}

/// A valid snapshot with one rover's id changed to zero is refused for the
/// reserved id; with it changed to a value at or above the stored
/// watermark, it is refused for the watermark.
pub proof fn lemma_altered_rover_id(d: Seq<u8>, i: int, v: u32)
    requires
        decode_error(d) is None,
        0 <= i < rover_count(d),
        v == 0 || v >= watermark_at(d),
    ensures
        decode_error(with_u32_at(d, rover_offset(i), v)) == Some(
            SnapshotError::Malformed { reason: if v == 0 { REASON_ID_ZERO } else { REASON_WATERMARK } },
        ),
{
    lemma_valid_facts(d);
    lemma_with_u32_at(d, i, v);
    let e = with_u32_at(d, rover_offset(i), v);
    let n = rover_count(d) as nat;
    assert(rover_id_at(e, i) == v);
    if v == 0 {
        if rover_problem(d, i as nat) is Some {
            lemma_rover_problem_stable(d, i as nat, n);
        }
        lemma_rover_problem_same(d, e, i as nat);
        assert(rover_problem(e, (i + 1) as nat) == Some(REASON_ID_ZERO));
        lemma_rover_problem_stable(e, (i + 1) as nat, n);
    } else {
        assert forall|j: int| 0 <= j < n implies #[trigger] rover_id_at(e, j) != 0 by {
            if j != i {
                assert(rover_id_at(d, j) != 0);
            }
        }
        lemma_rover_problem_none(d, n);
        assert forall|a: int, b: int| 0 <= a < b < n implies rover_id_at(e, a) != rover_id_at(e, b) by {
            if a == i {
                assert(rover_id_at(d, b) < watermark_at(d));
            } else if b == i {
                assert(rover_id_at(d, a) < watermark_at(d));
            } else {
                assert(rover_id_at(d, a) != rover_id_at(d, b));
            }
        }
        lemma_distinct_no_problem(e, n);
        assert(rover_id_at(e, i) >= watermark_at(e));
    }
}

/// A valid snapshot with its watermark changed to zero is refused for the
/// reserved watermark; changed to a value at or below some rover's id, it
/// is refused for the watermark.
pub proof fn lemma_altered_watermark(d: Seq<u8>, w: u32)
    requires
        decode_error(d) is None,
        w == 0 || exists|i: int| 0 <= i < rover_count(d) && #[trigger] rover_id_at(d, i) >= w,
    ensures
        decode_error(with_u32_at(d, rover_offset(rover_count(d) as int), w)) == Some(
            SnapshotError::Malformed { reason: if w == 0 { REASON_NEXT_ZERO } else { REASON_WATERMARK } },
        ),
{
    lemma_valid_facts(d);
    let n = rover_count(d) as int;
    lemma_with_u32_at(d, n, w);
    let e = with_u32_at(d, rover_offset(n), w);
    lemma_rover_problem_same(d, e, n as nat);
    assert(watermark_at(e) == w);
    if w != 0 {
        let i = choose|i: int| 0 <= i < rover_count(d) && #[trigger] rover_id_at(d, i) >= w;
        assert(rover_id_at(e, i) >= watermark_at(e));
    }
}

/// Re-encoding a serialized rover gives back its bytes.
proof fn lemma_rover_at_bytes(d: Seq<u8>, k: int)
    requires
        0 <= k,
        rover_offset(k) + 44 <= d.len(),
    ensures
        rover_bytes(rover_at(d, k)) == d.subrange(rover_offset(k), rover_offset(k) + 44),
{
    vstd::bytes::lemma_auto_spec_u64_to_from_le_bytes();
    vstd::bytes::lemma_auto_spec_u32_to_from_le_bytes();
    let off = rover_offset(k);
    let r = rover_at(d, k);
    RoverId::lemma_of_raw(le_u32_at(d, off));
    assert(spec_u32_to_le_bytes(r.id@) == d.subrange(off, off + 4));
    assert(spec_u64_to_le_bytes(r.fields.position_x) == d.subrange(off + 4, off + 12));
    assert(spec_u64_to_le_bytes(r.fields.position_y) == d.subrange(off + 12, off + 20));
    assert(spec_u64_to_le_bytes(r.fields.heading_x) == d.subrange(off + 20, off + 28));
    assert(spec_u64_to_le_bytes(r.fields.heading_y) == d.subrange(off + 28, off + 36));
    assert(spec_u64_to_le_bytes(r.fields.speed) == d.subrange(off + 36, off + 44));
    assert(rover_bytes(r) =~= d.subrange(off, off + 44));
}

/// Re-encoding the first `m` serialized rovers gives back their bytes.
proof fn lemma_decoded_rovers_bytes(d: Seq<u8>, m: nat)
    requires
        rover_offset(m as int) <= d.len(),
    ensures
        rovers_bytes(decoded_rovers(d, m)) == d.subrange(HEADER_BYTES as int, rover_offset(m as int)),
    decreases m,
{
    if m == 0 {
        assert(d.subrange(64, 64) =~= Seq::<u8>::empty());
    } else {
        let k = (m - 1) as int;
        lemma_decoded_rovers_bytes(d, k as nat);
        assert(decoded_rovers(d, m).drop_last() =~= decoded_rovers(d, k as nat));
        assert(decoded_rovers(d, m).last() == rover_at(d, k));
        lemma_rover_at_bytes(d, k);
        assert(d.subrange(64, rover_offset(m as int)) =~= d.subrange(64, rover_offset(k)) + d.subrange(
            rover_offset(k),
            rover_offset(k) + 44,
        ));
    }
}

/// Re-encoding what a valid snapshot decodes to gives back its bytes, byte
/// for byte, when its rovers are stored in ascending id order (the order
/// the encoder writes).
pub proof fn lemma_reencode(d: Seq<u8>, state: WorldState)
    requires
        decode_error(d) is None,
        decodes_to(d, state),
        forall|i: int, j: int| 0 <= i < j < rover_count(d) ==> rover_id_at(d, i) < rover_id_at(d, j),
    ensures
        encode(state) == d,
{
    vstd::bytes::lemma_auto_spec_u64_to_from_le_bytes();
    vstd::bytes::lemma_auto_spec_u32_to_from_le_bytes();
    lemma_valid_facts(d);
    let n = rover_count(d) as int;
    let rd = decoded_rovers(d, n as nat);
    assert forall|i: int| 0 <= i < n implies #[trigger] rd[i].id@ == rover_id_at(d, i) by {
        RoverId::lemma_of_raw(rover_id_at(d, i));
    }
    assert(ids_ascending(rd)) by {
        assert forall|i: int, j: int| 0 <= i < j < rd.len() implies rd[i].id@ < rd[j].id@ by {
            assert(rd[i].id@ == rover_id_at(d, i));
            assert(rd[j].id@ == rover_id_at(d, j));
        }
    }
    lemma_ascending_unique(state.rover_seq(), rd);
    let end = d.len() as int;
    assert(rover_offset(n) == end - 4);
    lemma_decoded_rovers_bytes(d, n as nat);
    let w = state.rng_state()@;
    assert(spec_u32_to_le_bytes(SNAPSHOT_VERSION) == d.subrange(4, 8));
    assert(spec_u64_to_le_bytes(state.current_tick()) == d.subrange(8, 16));
    assert(spec_u64_to_le_bytes(state.world_seed()) == d.subrange(16, 24));
    assert(spec_u64_to_le_bytes(w.0) == d.subrange(24, 32));
    assert(spec_u64_to_le_bytes(w.1) == d.subrange(32, 40));
    assert(spec_u64_to_le_bytes(w.2) == d.subrange(40, 48));
    assert(spec_u64_to_le_bytes(w.3) == d.subrange(48, 56));
    assert(state.rover_seq().len() as u64 == rover_count(d));
    assert(spec_u64_to_le_bytes(state.rover_seq().len() as u64) == d.subrange(56, 64));
    assert(spec_u32_to_le_bytes(state.watermark()) == d.subrange(end - 4, end));
    assert(header_bytes(state) =~= d.subrange(0, 64));
    assert(encode(state) =~= d.subrange(0, 64) + d.subrange(64, end - 4) + d.subrange(end - 4, end));
    assert(d =~= d.subrange(0, 64) + d.subrange(64, end - 4) + d.subrange(end - 4, end));
}

} // verus!
