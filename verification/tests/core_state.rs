use neogen::commands::SCAN_TICKS;
use neogen::engine_version;
use neogen::hash::{state_hash, Fnv1a};
use neogen::ids::RoverId;
use neogen::rng::Rng;
use neogen::snapshot::{from_bytes, to_bytes, SnapshotError, MAGIC, SNAPSHOT_VERSION};
use neogen::tick::TICK_HZ;
use neogen::world::{RoverFields, WorldState};

const ONE: u64 = 0x3ff0_0000_0000_0000;
const TWO: u64 = 0x4000_0000_0000_0000;

#[test]
fn engine_version_exposes_crate_version() {
    let version = engine_version();
    assert!(!version.is_empty());
    let parts: Vec<_> = version.split('.').collect();
    assert!(
        parts.len() >= 2,
        "expected at least major.minor, got {version}"
    );
    assert!(
        parts
            .iter()
            .all(|p| !p.is_empty() && p.chars().all(|c| c.is_ascii_digit())),
        "expected numeric version components, got {version}"
    );
}

#[test]
fn const_assert_scan_ticks_is_positive() {
    assert!(SCAN_TICKS >= 1);
}

#[test]
fn tick_frequency_is_thirty() {
    assert_eq!(TICK_HZ, 30);
}

#[test]
fn fnv1a_known_vectors() {
    assert_eq!(Fnv1a::new().finish(), 0xcbf2_9ce4_8422_2325);
    let mut h = Fnv1a::new();
    h.write_u8(b'a');
    assert_eq!(h.finish(), 0xaf63_dc4c_8601_ec8c);
    let mut h = Fnv1a::new();
    h.write_bytes(b"foobar");
    assert_eq!(h.finish(), 0x8594_4171_f739_67e8);
}

#[test]
fn write_u64_mixes_little_endian_bytes() {
    let mut a = Fnv1a::new();
    a.write_u64(0x0102_0304_0506_0708);
    let mut b = Fnv1a::new();
    b.write_bytes(&[8, 7, 6, 5, 4, 3, 2, 1]);
    assert_eq!(a.finish(), b.finish());
}

fn one_rover_state() -> WorldState {
    let mut state = WorldState::empty(42);
    let id = state.spawn_rover(ONE, TWO, ONE, 0);
    assert_eq!(id, RoverId::from_raw(1));
    state
}

#[test]
fn state_hash_of_known_states() {
    assert_eq!(state_hash(&WorldState::empty(42)), 0x56c5_3f79_6159_c25e);
    assert_eq!(state_hash(&one_rover_state()), 0xd879_231c_9480_78fe);
}

#[test]
fn empty_state_draws_from_its_seed() {
    let state = WorldState::empty(42);
    assert_eq!(state.tick(), 0);
    assert_eq!(state.seed(), 42);
    assert_eq!(*state.rng(), Rng::from_seed(42));
    assert!(state.rovers().is_empty());
    assert_eq!(state.next_rover_id(), 1);
}

#[test]
fn spawned_rovers_get_ascending_ids() {
    let mut state = WorldState::empty(1);
    let a = state.spawn_rover(0, 0, ONE, 0);
    let b = state.spawn_rover(ONE, 0, ONE, 0);
    assert_eq!(a.raw(), 1);
    assert_eq!(b.raw(), 2);
    assert_eq!(state.next_rover_id(), 3);
    assert_eq!(state.rovers().len(), 2);
    assert_eq!(state.rover(b).expect("spawned").fields.position_x, ONE);
    assert!(state.rover(RoverId::from_raw(9)).is_none());
}

#[test]
fn set_rover_fields_changes_only_that_rover() {
    let mut state = one_rover_state();
    let fields = RoverFields {
        position_x: TWO,
        position_y: TWO,
        heading_x: 0,
        heading_y: ONE,
        speed: ONE,
    };
    assert!(state.set_rover_fields(RoverId::from_raw(1), fields));
    assert_eq!(state.rover(RoverId::from_raw(1)).expect("rover").fields, fields);
    assert!(!state.set_rover_fields(RoverId::from_raw(2), fields));
}

#[test]
fn advance_tick_counts_up() {
    let mut state = WorldState::empty(3);
    state.advance_tick();
    state.advance_tick();
    assert_eq!(state.tick(), 2);
}

#[test]
fn snapshot_bytes_of_a_known_state() {
    let bytes = to_bytes(&one_rover_state());
    let expected = "4e45474e0200000000000000000000002a00000000000000956eeb2f2632d7bd03f166b233e3ef28529f0f135767524794e34a0effe11c58010000000000000001000000000000000000f03f0000000000000040000000000000f03f0000000000000000000000000000000002000000";
    let hex: String = bytes.iter().map(|b| format!("{b:02x}")).collect();
    assert_eq!(hex, expected);
    assert_eq!(&bytes[..4], &MAGIC);
}

#[test]
fn snapshot_roundtrip_keeps_state_and_hash() {
    let mut state = one_rover_state();
    state.spawn_rover(TWO, ONE, 0, ONE);
    state.advance_tick();
    state.next_u64();
    let bytes = to_bytes(&state);
    let back = from_bytes(&bytes).expect("round trip");
    assert_eq!(back, state);
    assert_eq!(state_hash(&back), state_hash(&state));
    assert_eq!(to_bytes(&back), bytes);
}

#[test]
fn snapshot_rejects_bad_magic() {
    let mut bytes = to_bytes(&WorldState::empty(1));
    bytes[0] = b'J';
    assert_eq!(
        from_bytes(&bytes),
        Err(SnapshotError::BadMagic { found: *b"JEGN" })
    );
}

#[test]
fn snapshot_rejects_other_versions() {
    let mut bytes = to_bytes(&WorldState::empty(1));
    bytes[4..8].copy_from_slice(&999u32.to_le_bytes());
    assert_eq!(
        from_bytes(&bytes),
        Err(SnapshotError::UnsupportedVersion { found: 999 })
    );
    assert_eq!(SNAPSHOT_VERSION, 2);
}

#[test]
fn snapshot_rejects_truncation_and_trailing_bytes() {
    let bytes = to_bytes(&one_rover_state());
    let short = &bytes[..bytes.len() - 1];
    assert_eq!(
        from_bytes(short),
        Err(SnapshotError::UnexpectedEof {
            needed: 112,
            available: 111
        })
    );
    let mut long = bytes.clone();
    long.push(0);
    long.push(0);
    assert_eq!(
        from_bytes(&long),
        Err(SnapshotError::TrailingBytes { extra: 2 })
    );
    assert!(matches!(
        from_bytes(&bytes[..3]),
        Err(SnapshotError::UnexpectedEof { .. })
    ));
}

#[test]
fn snapshot_rejects_impossible_content() {
    let mut bytes = to_bytes(&one_rover_state());
    let n = bytes.len();
    bytes[n - 4..].copy_from_slice(&1u32.to_le_bytes());
    match from_bytes(&bytes) {
        Err(SnapshotError::Malformed { reason }) => assert!(reason.contains("watermark")),
        other => panic!("expected Malformed, got {other:?}"),
    }
    let mut zero = to_bytes(&WorldState::empty(5));
    for b in &mut zero[24..56] {
        *b = 0;
    }
    match from_bytes(&zero) {
        Err(SnapshotError::Malformed { reason }) => assert!(reason.contains("zero")),
        other => panic!("expected Malformed, got {other:?}"),
    }
    let mut id_zero = to_bytes(&one_rover_state());
    id_zero[64..68].copy_from_slice(&0u32.to_le_bytes());
    match from_bytes(&id_zero) {
        Err(SnapshotError::Malformed { reason }) => assert!(reason.contains("0 is reserved")),
        other => panic!("expected Malformed, got {other:?}"),
    }
}

#[test]
fn error_messages_are_readable() {
    let bad = SnapshotError::BadMagic { found: *b"JUNK" }.message();
    assert!(bad.contains("JUNK"), "{bad}");
    let old = SnapshotError::UnsupportedVersion { found: 999 }.message();
    assert!(old.contains("999"), "{old}");
    let eof = SnapshotError::UnexpectedEof {
        needed: 10,
        available: 4,
    }
    .message();
    assert!(eof.contains("10") && eof.contains("4"), "{eof}");
}

#[test]
fn error_messages_exact_text() {
    assert_eq!(
        SnapshotError::BadMagic { found: *b"JUNK" }.message(),
        "bad magic \"JUNK\" (expected \"NEGN\")"
    );
    assert_eq!(
        SnapshotError::UnsupportedVersion { found: 7 }.message(),
        "unsupported snapshot schema version 7 (supported: 2)"
    );
    assert_eq!(
        SnapshotError::TrailingBytes { extra: 3 }.message(),
        "3 trailing bytes after the snapshot"
    );
}

#[test]
fn decoded_snapshots_encode_back_to_the_same_bytes() {
    let mut state = one_rover_state();
    state.spawn_rover(TWO, TWO, 0, ONE);
    let bytes = to_bytes(&state);
    let back = from_bytes(&bytes).expect("valid");
    assert_eq!(to_bytes(&back), bytes);
    for len in 0..bytes.len() {
        match from_bytes(&bytes[..len]) {
            Err(SnapshotError::UnexpectedEof { needed, available }) => {
                assert_eq!(available, len);
                assert!(len < needed && needed <= bytes.len());
            }
            other => panic!("len {len}: {other:?}"),
        }
    }
}
