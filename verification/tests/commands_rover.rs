use neogen::commands::{f64_bits_below_zero, f64_bits_finite, Command, CommandError, SCAN_TICKS};
use neogen::rover::{RoverTasks, MAX_SCAN_BUFFER};

fn bits(x: f64) -> u64 {
    x.to_bits()
}

fn move_to(x: f64, y: f64) -> Command {
    Command::MoveTo { target_x: bits(x), target_y: bits(y) }
}

fn scan(radius: f64) -> Command {
    Command::Scan { radius: bits(radius) }
}

#[test]
fn float_bit_predicates_match_std() {
    for v in [0.0, -0.0, 1.5, -2.0, f64::MIN_POSITIVE, f64::MAX, f64::INFINITY, f64::NEG_INFINITY, f64::NAN, -f64::NAN] {
        assert_eq!(f64_bits_finite(v.to_bits()), v.is_finite(), "{v}");
        assert_eq!(f64_bits_below_zero(v.to_bits()), v < 0.0, "{v}");
    }
}

#[test]
fn validation_accepts_and_names_fields() {
    assert_eq!(move_to(1.0, 2.0).validate(), Ok(()));
    assert_eq!(
        move_to(f64::NAN, 2.0).validate(),
        Err(CommandError::NotFinite { field: "target.x" })
    );
    assert_eq!(
        move_to(1.0, f64::INFINITY).validate(),
        Err(CommandError::NotFinite { field: "target.y" })
    );
    assert_eq!(
        scan(f64::INFINITY).validate(),
        Err(CommandError::NotFinite { field: "radius" })
    );
    assert_eq!(scan(-1.0).validate(), Err(CommandError::NegativeRadius));
    assert_eq!(scan(0.0).validate(), Ok(()));
    assert_eq!(scan(-0.0).validate(), Ok(()));
    assert_eq!(Command::Noop.validate(), Ok(()));
}

#[test]
fn command_error_messages() {
    assert_eq!(
        CommandError::NotFinite { field: "radius" }.message(),
        "radius is not finite"
    );
    assert_eq!(CommandError::NegativeRadius.message(), "scan radius is negative");
}

#[test]
fn batches_are_atomic() {
    let mut tasks = RoverTasks::new();
    assert_eq!(
        tasks.push_commands(&[move_to(1.0, 1.0), scan(-3.0), Command::Noop]),
        Err(CommandError::NegativeRadius)
    );
    assert!(tasks.commands.is_empty());
    assert_eq!(tasks.push_commands(&[move_to(1.0, 1.0), Command::Noop]), Ok(()));
    assert_eq!(tasks.commands.len(), 2);
    assert!(tasks.is_moving());
    assert_eq!(tasks.front(), Some(move_to(1.0, 1.0)));
}

#[test]
fn move_completes_only_on_arrival() {
    let mut tasks = RoverTasks::new();
    tasks.push_commands(&[move_to(3.0, 4.0)]).unwrap();
    tasks.advance(1, false);
    assert_eq!(tasks.commands.len(), 1);
    tasks.advance(2, true);
    assert!(tasks.commands.is_empty());
    assert!(!tasks.is_moving());
    tasks.advance(3, true);
    assert!(tasks.commands.is_empty());
}

#[test]
fn scan_completes_after_scan_ticks() {
    let mut tasks = RoverTasks::new();
    tasks.push_commands(&[scan(9.0), Command::Noop]).unwrap();
    for tick in 1..SCAN_TICKS {
        tasks.advance(tick, false);
        assert!(tasks.scan_results().is_empty(), "completed too early at {tick}");
        assert_eq!(tasks.remaining_ticks, SCAN_TICKS - tick);
    }
    tasks.advance(SCAN_TICKS, false);
    assert_eq!(tasks.scan_results().len(), 1);
    let result = tasks.latest_scan().expect("scan done");
    assert_eq!(result.tick, SCAN_TICKS);
    assert_eq!(result.radius, bits(9.0));
    assert!(result.points.is_empty());
    assert_eq!(tasks.remaining_ticks, 0);
    assert_eq!(tasks.front(), Some(Command::Noop));
    tasks.advance(SCAN_TICKS + 1, false);
    assert!(tasks.commands.is_empty());
}

#[test]
fn scan_buffer_keeps_the_latest_results() {
    let mut tasks = RoverTasks::new();
    let mut tick = 0;
    for _ in 0..(MAX_SCAN_BUFFER + 3) {
        tasks.push_commands(&[scan(1.0)]).unwrap();
        for _ in 0..SCAN_TICKS {
            tick += 1;
            tasks.advance(tick, false);
        }
    }
    assert_eq!(tasks.scan_results().len(), MAX_SCAN_BUFFER);
    assert_eq!(tasks.scan_results()[0].tick, 4 * SCAN_TICKS);
    assert_eq!(tasks.latest_scan().unwrap().tick, tick);
    let taken = tasks.take_scan_results();
    assert_eq!(taken.len(), MAX_SCAN_BUFFER);
    assert!(tasks.scan_results().is_empty());
    assert!(tasks.latest_scan().is_none());
}
