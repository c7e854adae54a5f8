use elma_physics::control::Control;
use elma_physics::moto::{MicroStep, Moto, Torque, Tricks, ROTATION_DELAY, ROTATION_PERIOD};

fn idle() -> Control {
    Control::default()
}

fn run(moto: &mut Moto, control: Control, target: u64) -> Vec<MicroStep> {
    let mut steps = Vec::new();
    while let Some(step) = moto.advance(control, target) {
        steps.push(step);
    }
    steps
}

#[test]
fn default_control_holds_nothing() {
    let control = Control::default();
    assert!(!control.rotate_left);
    assert!(!control.rotate_right);
    assert!(!control.throttle);
    assert!(!control.brake);
}

#[test]
fn new_bike_starts_at_zero() {
    let moto = Moto::new();
    assert_eq!(moto.time(), 0);
    assert!(!moto.direction());
}

#[test]
fn clock_advances_by_one_micro_step() {
    let mut moto = Moto::new();
    for expected in 1..=100u64 {
        let step = moto.advance(idle(), 100).unwrap();
        assert_eq!(step.time, expected);
        assert_eq!(moto.time(), expected);
    }
    assert_eq!(moto.advance(idle(), 100), None);
    assert_eq!(moto.time(), 100);
}

#[test]
fn advance_stops_at_target() {
    let mut moto = Moto::new();
    assert_eq!(run(&mut moto, idle(), 7).len(), 7);
    assert_eq!(moto.advance(idle(), 7), None);
    assert_eq!(moto.advance(idle(), 3), None);
    assert_eq!(moto.advance(idle(), 0), None);
    assert_eq!(moto.time(), 7);
}

#[test]
fn advance_in_two_halves_equals_one_call() {
    let control = Control { rotate_left: true, rotate_right: false, throttle: true, brake: false };
    let mut whole = Moto::new();
    let all = run(&mut whole, control, 90_000);
    let mut halves = Moto::new();
    let mut parts = run(&mut halves, control, 45_000);
    parts.extend(run(&mut halves, control, 90_000));
    assert_eq!(all, parts);
    assert_eq!(whole.time(), halves.time());
    let next_whole = whole.advance(control, 90_001);
    let next_halves = halves.advance(control, 90_001);
    assert_eq!(next_whole, next_halves);
}

#[test]
fn held_rotate_right_gives_exactly_one_trick() {
    let mut moto = Moto::new();
    let held = Control { rotate_left: false, rotate_right: true, throttle: false, brake: false };
    let mut steps = run(&mut moto, held, 1_000);
    steps.extend(run(&mut moto, idle(), 50_000));
    let tricks: Vec<&MicroStep> = steps.iter().filter(|s| s.tricks != Tricks::Nothing).collect();
    assert_eq!(tricks.len(), 1);
    assert_eq!(tricks[0].tricks, Tricks::Right);
    assert_eq!(tricks[0].time, 1);
}

#[test]
fn held_rotate_repeats_after_the_period() {
    let mut moto = Moto::new();
    let held = Control { rotate_left: true, rotate_right: false, throttle: false, brake: false };
    let steps = run(&mut moto, held, 2 * ROTATION_PERIOD + 10);
    let times: Vec<u64> =
        steps.iter().filter(|s| s.tricks != Tricks::Nothing).map(|s| s.time).collect();
    assert_eq!(times, vec![1, ROTATION_PERIOD + 2, 2 * ROTATION_PERIOD + 3]);
}

#[test]
fn both_rotations_are_accepted_right_first() {
    let mut moto = Moto::new();
    let both = Control { rotate_left: true, rotate_right: true, throttle: false, brake: false };
    let step = moto.advance(both, 1).unwrap();
    assert_eq!(step.tricks, Tricks::RightThenLeft);
    assert!(!step.settle_left);
    assert!(!step.settle_right);
}

#[test]
fn trick_settles_after_the_delay() {
    let mut moto = Moto::new();
    let held = Control { rotate_left: false, rotate_right: true, throttle: false, brake: false };
    let steps = run(&mut moto, held, ROTATION_DELAY + 5);
    let settled: Vec<u64> = steps.iter().filter(|s| s.settle_right).map(|s| s.time).collect();
    assert_eq!(settled, vec![ROTATION_DELAY + 2]);
    assert!(steps.iter().all(|s| !s.settle_left));
}

#[test]
fn brake_start_is_reported_once() {
    let mut moto = Moto::new();
    let brake = Control { rotate_left: false, rotate_right: false, throttle: false, brake: true };
    let first = moto.advance(brake, 10).unwrap();
    assert!(first.brake_started);
    assert_eq!(first.rear, Torque::Brake);
    assert_eq!(first.front, Torque::Brake);
    let second = moto.advance(brake, 10).unwrap();
    assert!(!second.brake_started);
    let released = moto.advance(idle(), 10).unwrap();
    assert!(!released.brake_started);
    assert_eq!(released.rear, Torque::Free);
    let again = moto.advance(brake, 10).unwrap();
    assert!(again.brake_started);
}

#[test]
fn throttle_drives_the_wheel_that_facing_selects() {
    let throttle = Control { rotate_left: false, rotate_right: false, throttle: true, brake: false };
    let mut moto = Moto::new();
    let step = moto.advance(throttle, 10).unwrap();
    assert_eq!(step.front, Torque::Drive);
    assert_eq!(step.rear, Torque::Free);
    moto.set_direction(true);
    assert!(moto.direction());
    let step = moto.advance(throttle, 10).unwrap();
    assert_eq!(step.front, Torque::Free);
    assert_eq!(step.rear, Torque::Drive);
    assert_eq!(moto.time(), 2);
}

#[test]
fn brake_overrides_throttle() {
    let both = Control { rotate_left: false, rotate_right: false, throttle: true, brake: true };
    let mut moto = Moto::new();
    let step = moto.advance(both, 1).unwrap();
    assert_eq!(step.front, Torque::Brake);
    assert_eq!(step.rear, Torque::Brake);
}

#[test]
fn same_inputs_give_same_steps() {
    let control = Control { rotate_left: true, rotate_right: true, throttle: true, brake: false };
    let mut a = Moto::new();
    let mut b = Moto::new();
    assert_eq!(run(&mut a, control, 60_000), run(&mut b, control, 60_000));
}
