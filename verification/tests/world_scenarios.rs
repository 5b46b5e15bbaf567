//! World scenarios driven the way the host drives the library: the host
//! works out floating-point movement toward MoveTo targets, the library
//! applies it and advances the queues.

use neogen::commands::{Command, CommandError, SCAN_TICKS};
use neogen::hash::state_hash;
use neogen::ids::{IdIssuer, RoverId};
use neogen::snapshot::{from_bytes, to_bytes, SnapshotError};
use neogen::world::{MoveResult, RoverFields, World, WorldState};

#[derive(Debug, Clone, Copy, PartialEq)]
struct V(f64, f64);

fn next_f64_in(state: &mut WorldState, start: f64, end: f64) -> f64 {
    start + (state.next_u64() >> 11) as f64 * (1.0 / ((1u64 << 53) as f64)) * (end - start)
}

fn generated_state(seed: u64) -> WorldState {
    let mut state = WorldState::empty(seed);
    let x = next_f64_in(&mut state, -8.0, 8.0);
    let y = next_f64_in(&mut state, -8.0, 8.0);
    let dx = next_f64_in(&mut state, -1.0, 1.0);
    let dy = next_f64_in(&mut state, -1.0, 1.0);
    let len = (dx * dx + dy * dy).sqrt();
    let (hx, hy) = if len == 0.0 { (1.0, 0.0) } else { (dx / len, dy / len) };
    state.spawn_rover(x.to_bits(), y.to_bits(), hx.to_bits(), hy.to_bits());
    state
}

fn new_world(seed: u64) -> World {
    World::from_state(generated_state(seed))
}

fn position(world: &World, id: RoverId) -> V {
    let f = world.state().rover(id).expect("rover exists").fields;
    V(f64::from_bits(f.position_x), f64::from_bits(f.position_y))
}

fn sole_rover(world: &World) -> (RoverId, V) {
    let id = world.state().rovers()[0].id;
    (id, position(world, id))
}

fn move_to(x: f64, y: f64) -> Command {
    Command::MoveTo { target_x: x.to_bits(), target_y: y.to_bits() }
}

/// One tick of the host's movement, then the library's step.
fn step(world: &mut World) {
    let targets = world.move_targets();
    let moves: Vec<MoveResult> = world
        .state()
        .rovers()
        .iter()
        .zip(targets)
        .map(|(record, target)| {
            let f = record.fields;
            let (px, py) = (f64::from_bits(f.position_x), f64::from_bits(f.position_y));
            let speed = f64::from_bits(f.speed);
            let cruise = if speed > 0.0 { speed } else { 2.0 };
            match target {
                None => MoveResult { fields: f, arrived: false },
                Some((tx, ty)) => {
                    let (tx, ty) = (f64::from_bits(tx), f64::from_bits(ty));
                    let (dx, dy) = (tx - px, ty - py);
                    let distance = (dx * dx + dy * dy).sqrt();
                    if distance <= cruise {
                        let fields = RoverFields { position_x: tx.to_bits(), position_y: ty.to_bits(), ..f };
                        MoveResult { fields, arrived: true }
                    } else {
                        let (hx, hy) = (dx / distance, dy / distance);
                        let fields = RoverFields {
                            position_x: (px + hx * cruise).to_bits(),
                            position_y: (py + hy * cruise).to_bits(),
                            heading_x: hx.to_bits(),
                            heading_y: hy.to_bits(),
                            speed: f.speed,
                        };
                        MoveResult { fields, arrived: false }
                    }
                }
            }
        })
        .collect();
    world.step(&moves);
}

#[test]
fn valid_commands_pass() {
    assert_eq!(move_to(1.0, -2.5).validate(), Ok(()));
    assert_eq!(Command::Scan { radius: 0.0f64.to_bits() }.validate(), Ok(()));
    assert_eq!(Command::Scan { radius: 7.0f64.to_bits() }.validate(), Ok(()));
    assert_eq!(Command::Noop.validate(), Ok(()));
}

#[test]
fn nan_and_inf_targets_are_rejected() {
    for bad in [f64::NAN, f64::INFINITY, f64::NEG_INFINITY] {
        assert_eq!(move_to(bad, 0.0).validate(), Err(CommandError::NotFinite { field: "target.x" }));
        assert_eq!(move_to(0.0, bad).validate(), Err(CommandError::NotFinite { field: "target.y" }));
    }
}

#[test]
fn bad_radius_is_rejected() {
    assert_eq!(Command::Scan { radius: (-0.1f64).to_bits() }.validate(), Err(CommandError::NegativeRadius));
    assert_eq!(
        Command::Scan { radius: f64::NAN.to_bits() }.validate(),
        Err(CommandError::NotFinite { field: "radius" })
    );
    assert_eq!(
        Command::Scan { radius: f64::INFINITY.to_bits() }.validate(),
        Err(CommandError::NotFinite { field: "radius" })
    );
}

#[test]
fn identical_states_hash_equal() {
    let a = new_world(42);
    let b = new_world(42);
    assert_eq!(state_hash(a.state()), state_hash(b.state()));
}

#[test]
fn tick_progress_changes_hash() {
    let mut world = new_world(42);
    let before = state_hash(world.state());
    step(&mut world);
    assert_ne!(state_hash(world.state()), before);
}

#[test]
fn rover_field_change_changes_hash() {
    let mut world = new_world(42);
    let (id, _) = sole_rover(&world);
    let before = state_hash(world.state());
    world.set_rover_speed(id, 1.0f64.to_bits()).expect("valid speed");
    assert_ne!(state_hash(world.state()), before);
}

#[test]
fn different_seeds_hash_different() {
    assert_ne!(state_hash(new_world(1).state()), state_hash(new_world(2).state()));
}

#[test]
fn roundtrip_via_unit_smoke() {
    let world = new_world(42);
    let bytes = to_bytes(world.state());
    assert_eq!(&bytes[0..4], b"NEGN");
    let restored = from_bytes(&bytes).expect("valid snapshot");
    assert_eq!(restored, *world.state());
}

#[test]
fn roundtrip_preserves_state_and_hash() {
    for seed in [42u64, 7, u64::MAX] {
        let mut world = new_world(seed);
        for _ in 0..250 {
            step(&mut world);
        }
        let bytes = to_bytes(world.state());
        let restored = from_bytes(&bytes).expect("valid snapshot");
        assert_eq!(restored, *world.state(), "seed {seed}: state drifted");
        assert_eq!(state_hash(&restored), state_hash(world.state()));
    }
}

#[test]
fn roundtrip_with_multiple_rovers() {
    let mut state = new_world(5).into_state();
    state.spawn_rover(1.0f64.to_bits(), (-2.0f64).to_bits(), 1.0f64.to_bits(), 0);
    state.spawn_rover((-3.5f64).to_bits(), 4.0f64.to_bits(), 0, 1.0f64.to_bits());

    let bytes = to_bytes(&state);
    let restored = from_bytes(&bytes).expect("valid snapshot");
    assert_eq!(restored, state);
    assert_eq!(restored.rovers().len(), 3);

    let mut restored = restored;
    let next = restored.spawn_rover(0, 0, 1.0f64.to_bits(), 0);
    assert_eq!(next.raw(), 4);
}

#[test]
fn snapshot_resume_matches_continuous_run() {
    const K: u64 = 100;
    const N: u64 = 100;
    for seed in [42u64, 7] {
        let mut continuous = new_world(seed);
        for _ in 0..(K + N) {
            step(&mut continuous);
        }
        let mut saved = new_world(seed);
        for _ in 0..K {
            step(&mut saved);
        }
        let bytes = to_bytes(saved.state());
        let mut resumed = World::from_state(from_bytes(&bytes).expect("valid snapshot"));
        assert_eq!(resumed.tick(), K);
        for _ in 0..N {
            step(&mut saved);
            step(&mut resumed);
        }
        assert_eq!(resumed.tick(), K + N);
        assert_eq!(state_hash(resumed.state()), state_hash(continuous.state()));
        assert_eq!(resumed.state(), continuous.state());
        assert_eq!(state_hash(saved.state()), state_hash(continuous.state()));
    }
}

#[test]
fn bad_magic_is_rejected() {
    let mut bytes = to_bytes(new_world(1).state());
    bytes[0] = b'X';
    match from_bytes(&bytes) {
        Err(SnapshotError::BadMagic { found }) => assert_eq!(found, *b"XEGN"),
        other => panic!("expected BadMagic, got {other:?}"),
    }
}

#[test]
fn unsupported_version_is_rejected() {
    let mut bytes = to_bytes(new_world(1).state());
    bytes[4..8].copy_from_slice(&999u32.to_le_bytes());
    match from_bytes(&bytes) {
        Err(SnapshotError::UnsupportedVersion { found }) => assert_eq!(found, 999),
        other => panic!("expected UnsupportedVersion, got {other:?}"),
    }
}

#[test]
fn truncated_buffers_are_rejected() {
    let bytes = to_bytes(new_world(1).state());
    for len in [0, 1, 3, 4, 7, 8, 15, 63, bytes.len() - 1] {
        match from_bytes(&bytes[..len]) {
            Err(SnapshotError::UnexpectedEof { needed, available }) => {
                assert!(needed > available, "needed {needed} <= available {available}");
                assert_eq!(available, len);
            }
            other => panic!("len {len}: expected UnexpectedEof, got {other:?}"),
        }
    }
}

#[test]
fn trailing_bytes_are_rejected() {
    let mut bytes = to_bytes(new_world(1).state());
    bytes.extend_from_slice(&[0u8, 0, 0]);
    match from_bytes(&bytes) {
        Err(SnapshotError::TrailingBytes { extra }) => assert_eq!(extra, 3),
        other => panic!("expected TrailingBytes, got {other:?}"),
    }
}

#[test]
fn semantically_impossible_content_is_rejected() {
    let mut bytes = to_bytes(new_world(1).state());
    let id_offset = 8 + 8 + 8 + 32 + 8;
    bytes[id_offset..id_offset + 4].copy_from_slice(&0u32.to_le_bytes());
    match from_bytes(&bytes) {
        Err(SnapshotError::Malformed { reason }) => assert!(reason.contains("reserved")),
        other => panic!("expected Malformed, got {other:?}"),
    }

    let mut bytes = to_bytes(new_world(1).state());
    let n = bytes.len();
    bytes[n - 4..].copy_from_slice(&0u32.to_le_bytes());
    match from_bytes(&bytes) {
        Err(SnapshotError::Malformed { reason }) => assert!(reason.contains("reserved")),
        other => panic!("expected Malformed, got {other:?}"),
    }

    let mut bytes = to_bytes(new_world(1).state());
    let n = bytes.len();
    bytes[n - 4..].copy_from_slice(&1u32.to_le_bytes());
    match from_bytes(&bytes) {
        Err(SnapshotError::Malformed { reason }) => assert!(reason.contains("watermark")),
        other => panic!("expected Malformed, got {other:?}"),
    }
}

#[test]
fn thousand_steps_advance_tick_counter_exactly() {
    let mut world = new_world(42);
    assert_eq!(world.tick(), 0);
    for _ in 0..1000 {
        step(&mut world);
    }
    assert_eq!(world.tick(), 1000);
    assert_eq!(world.state().tick(), 1000);
}

#[test]
fn state_clone_is_identical_snapshot() {
    let mut world = new_world(3);
    for _ in 0..10 {
        step(&mut world);
    }
    let snapshot = world.state().clone();
    assert_eq!(&snapshot, world.state());
    for _ in 0..5 {
        step(&mut world);
    }
    assert_eq!(snapshot.tick(), 10);
    assert_eq!(world.tick(), 15);
    assert_ne!(&snapshot, world.state());
}

#[test]
fn cloned_states_resume_identically() {
    let mut world = new_world(11);
    for _ in 0..25 {
        step(&mut world);
    }
    let mut a = World::from_state(world.state().clone());
    let mut b = World::from_state(world.state().clone());
    for _ in 0..100 {
        step(&mut a);
        step(&mut b);
    }
    assert_eq!(a.state(), b.state());
    assert_eq!(a.tick(), 125);
}

#[test]
fn moving_rover_advances_deterministically() {
    let mut a = new_world(5);
    let mut b = new_world(5);
    let (id, start) = sole_rover(&a);
    let target = V(start.0, start.1 + 200.0);
    a.push_commands(id, &[move_to(target.0, target.1)]).expect("valid commands");
    b.push_commands(id, &[move_to(target.0, target.1)]).expect("valid commands");
    for _ in 0..100 {
        step(&mut a);
        step(&mut b);
    }
    assert_eq!(a.state(), b.state());
    let p = position(&a, id);
    assert!((p.0 - start.0).abs() < 1e-9, "drift on X");
    assert!((p.1 - start.1 - 200.0).abs() < 1e-9, "Y delta after 100 ticks");
    assert_eq!(state_hash(a.state()), state_hash(b.state()));
}

#[test]
fn id_issuance_is_sequential_and_seed_independent() {
    let ids_a: Vec<_> = new_world(1).state().rovers().iter().map(|r| r.id).collect();
    let ids_b: Vec<_> = new_world(987_654_321).state().rovers().iter().map(|r| r.id).collect();
    assert_eq!(ids_a, ids_b);
    assert_eq!(ids_a[0], RoverId::from_raw(1));

    let mut state = new_world(0).into_state();
    let second = state.spawn_rover(0, 0, 1.0f64.to_bits(), 0);
    assert_eq!(second, RoverId::from_raw(2));
    assert_eq!(state.rovers().len(), 2);

    let mut issuer = IdIssuer::new();
    let first = issuer.issue();
    let next = issuer.issue();
    assert_eq!(first.raw() + 1, next.raw());
}

#[test]
fn commands_execute_in_order() {
    let mut world = new_world(7);
    let (id, start) = sole_rover(&world);
    let a = V(start.0 + 2.0, start.1);
    let b = V(a.0, a.1 + 4.0);
    world
        .push_commands(id, &[move_to(a.0, a.1), move_to(b.0, b.1), Command::Scan { radius: 5.0f64.to_bits() }])
        .unwrap();
    step(&mut world);
    assert_eq!(position(&world, id), a);
    assert_eq!(world.tasks(id).unwrap().commands.len(), 2);
    step(&mut world);
    step(&mut world);
    assert_eq!(position(&world, id), b);
    for _ in 0..SCAN_TICKS {
        step(&mut world);
    }
    assert_eq!(position(&world, id), b);
    assert!(world.tasks(id).unwrap().commands.is_empty());
    assert_eq!(world.tasks(id).unwrap().scan_buffer.len(), 1);
}

#[test]
fn scan_takes_exactly_scan_ticks_and_buffers_result() {
    let mut world = new_world(11);
    let (id, _) = sole_rover(&world);
    world.push_commands(id, &[Command::Scan { radius: 7.5f64.to_bits() }]).unwrap();
    for tick in 1..SCAN_TICKS {
        step(&mut world);
        assert!(world.tasks(id).unwrap().scan_buffer.is_empty(), "scan finished early at tick {tick}");
    }
    step(&mut world);
    let tasks = world.tasks(id).unwrap();
    assert!(tasks.commands.is_empty());
    let result = &tasks.scan_buffer[0];
    assert_eq!(result.tick, SCAN_TICKS);
    assert_eq!(f64::from_bits(result.radius), 7.5);
    assert!(result.points.is_empty());
}

#[test]
fn noop_completes_in_one_tick() {
    let mut world = new_world(3);
    let (id, start) = sole_rover(&world);
    world.push_commands(id, &[Command::Noop]).unwrap();
    step(&mut world);
    assert!(world.tasks(id).unwrap().commands.is_empty());
    assert_eq!(position(&world, id), start);
}

#[test]
fn same_seed_same_commands_same_hash() {
    for seed in [42u64, 7] {
        let script = |t: V| {
            [move_to(t.0, t.1), Command::Scan { radius: 3.0f64.to_bits() }, Command::Noop, move_to(0.0, 0.0)]
        };
        let mut a = new_world(seed);
        let mut b = new_world(seed);
        let (id_a, start_a) = sole_rover(&a);
        let (id_b, start_b) = sole_rover(&b);
        assert_eq!(start_a, start_b);
        a.push_commands(id_a, &script(V(start_a.0 + 5.0, start_a.1 + 5.0))).unwrap();
        b.push_commands(id_b, &script(V(start_b.0 + 5.0, start_b.1 + 5.0))).unwrap();
        for _ in 0..50 {
            step(&mut a);
            step(&mut b);
        }
        assert_eq!(state_hash(a.state()), state_hash(b.state()), "seed {seed}: hashes diverged");
        assert_eq!(a.state(), b.state());
    }
}

#[test]
fn different_commands_produce_different_states() {
    let mut a = new_world(42);
    let mut b = new_world(42);
    let (id_a, start_a) = sole_rover(&a);
    let (id_b, start_b) = sole_rover(&b);
    assert_eq!(start_a, start_b);
    a.push_commands(id_a, &[move_to(start_a.0 + 5.0, start_a.1)]).unwrap();
    b.push_commands(id_b, &[move_to(start_b.0 - 5.0, start_b.1)]).unwrap();
    for _ in 0..10 {
        step(&mut a);
        step(&mut b);
    }
    assert_ne!(state_hash(a.state()), state_hash(b.state()));
}

#[test]
fn two_instances_same_seed_same_hash_at_checkpoints() {
    for seed in [42u64, 7, u64::MAX] {
        let mut a = new_world(seed);
        let mut b = World::from_state(new_world(seed).into_state());
        for checkpoint in [1u64, 10, 100, 1000] {
            while a.tick() < checkpoint {
                step(&mut a);
                step(&mut b);
            }
            assert_eq!(state_hash(a.state()), state_hash(b.state()), "seed {seed} diverged at tick {checkpoint}");
        }
    }
}
