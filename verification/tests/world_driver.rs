use neogen::commands::{Command, CommandError, SCAN_TICKS};
use neogen::ids::RoverId;
use neogen::world::{MoveResult, PushCommandsError, RoverFields, SetSpeedError, World, WorldState};

const ONE: u64 = 0x3ff0_0000_0000_0000;
const TWO: u64 = 0x4000_0000_0000_0000;

fn two_rover_world() -> World {
    let mut world = World::from_state(WorldState::empty(9));
    world.spawn_rover(0, 0, ONE, 0);
    world.spawn_rover(ONE, ONE, ONE, 0);
    world
}

fn fields(x: u64) -> RoverFields {
    RoverFields { position_x: x, position_y: 0, heading_x: ONE, heading_y: 0, speed: 0 }
}

#[test]
fn resumed_worlds_start_idle() {
    let mut state = WorldState::empty(1);
    state.spawn_rover(0, 0, ONE, 0);
    let world = World::from_state(state.clone());
    assert_eq!(world.state(), &state);
    let tasks = world.tasks(RoverId::from_raw(1)).expect("rover");
    assert!(tasks.commands.is_empty() && tasks.scan_buffer.is_empty() && tasks.remaining_ticks == 0);
    assert!(world.tasks(RoverId::from_raw(2)).is_none());
    assert_eq!(world.into_state(), state);
}

#[test]
fn pushes_go_to_the_named_rover_only() {
    let mut world = two_rover_world();
    let id = RoverId::from_raw(2);
    assert_eq!(world.push_commands(id, &[Command::Noop, Command::Noop]), Ok(()));
    assert_eq!(world.tasks(id).unwrap().commands.len(), 2);
    assert!(world.tasks(RoverId::from_raw(1)).unwrap().commands.is_empty());
    assert_eq!(
        world.push_commands(RoverId::from_raw(7), &[Command::Noop]),
        Err(PushCommandsError::UnknownRover(RoverId::from_raw(7)))
    );
    assert_eq!(
        world.push_commands(id, &[Command::Scan { radius: (-1.0f64).to_bits() }]),
        Err(PushCommandsError::Invalid(CommandError::NegativeRadius))
    );
    assert_eq!(world.tasks(id).unwrap().commands.len(), 2);
}

#[test]
fn error_texts_of_the_driver() {
    assert_eq!(
        PushCommandsError::UnknownRover(RoverId::from_raw(7)).message(),
        "no rover with id rover#7"
    );
    assert_eq!(
        PushCommandsError::Invalid(CommandError::NegativeRadius).message(),
        "scan radius is negative"
    );
    assert_eq!(SetSpeedError::NotFinite.message(), "speed is not finite");
    assert_eq!(SetSpeedError::Negative.message(), "speed is negative");
}

#[test]
fn speed_overrides_are_checked() {
    let mut world = two_rover_world();
    let id = RoverId::from_raw(1);
    assert_eq!(world.set_rover_speed(id, 3.5f64.to_bits()), Ok(()));
    assert_eq!(world.state().rover(id).unwrap().fields.speed, 3.5f64.to_bits());
    assert_eq!(world.set_rover_speed(id, f64::NAN.to_bits()), Err(SetSpeedError::NotFinite));
    assert_eq!(world.set_rover_speed(id, (-1.0f64).to_bits()), Err(SetSpeedError::Negative));
    assert_eq!(world.set_rover_speed(id, 0.0f64.to_bits()), Ok(()));
    assert_eq!(
        world.set_rover_speed(RoverId::from_raw(3), ONE),
        Err(SetSpeedError::UnknownRover(RoverId::from_raw(3)))
    );
}

#[test]
fn step_applies_moves_only_to_driving_rovers() {
    let mut world = two_rover_world();
    let first = RoverId::from_raw(1);
    let second = RoverId::from_raw(2);
    world.push_commands(first, &[Command::MoveTo { target_x: TWO, target_y: 0 }]).unwrap();
    world.push_commands(second, &[Command::Noop]).unwrap();
    assert_eq!(world.move_targets(), vec![Some((TWO, 0)), None]);

    world.step(&[
        MoveResult { fields: fields(ONE), arrived: false },
        MoveResult { fields: fields(TWO), arrived: true },
    ]);
    assert_eq!(world.tick(), 1);
    assert_eq!(world.state().rover(first).unwrap().fields, fields(ONE));
    // The second rover's front was a Noop: the host's move is ignored.
    assert_eq!(world.state().rover(second).unwrap().fields.position_x, ONE);
    assert!(world.tasks(second).unwrap().commands.is_empty());
    assert_eq!(world.tasks(first).unwrap().commands.len(), 1);

    world.step(&[
        MoveResult { fields: fields(TWO), arrived: true },
        MoveResult { fields: fields(0), arrived: false },
    ]);
    assert!(world.tasks(first).unwrap().commands.is_empty());
    assert_eq!(world.state().rover(first).unwrap().fields.position_x, TWO);
    assert_eq!(world.move_targets(), vec![None, None]);
}

#[test]
fn scans_finish_and_can_be_taken() {
    let mut world = two_rover_world();
    let id = RoverId::from_raw(2);
    world.push_commands(id, &[Command::Scan { radius: ONE }]).unwrap();
    let idle = MoveResult { fields: fields(0), arrived: false };
    for _ in 0..SCAN_TICKS {
        world.step(&[idle, idle]);
    }
    let taken = world.take_scan_results(id).expect("rover");
    assert_eq!(taken.len(), 1);
    assert_eq!(taken[0].tick, SCAN_TICKS);
    assert!(world.take_scan_results(id).unwrap().is_empty());
    assert!(world.take_scan_results(RoverId::from_raw(5)).is_none());
    assert_eq!(world.seed(), 9);
}
