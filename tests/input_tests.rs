use raytracer::input::{camera_steps, plan_input, Key, Motion, Step};

#[test]
fn no_keys_do_nothing() {
    let plan = plan_input(&vec![]);
    assert!(plan.turn.is_empty());
    assert!(plan.shift.is_empty());
    assert!(!plan.reset);
}

#[test]
fn turning_keys_map_to_steps() {
    let keys = vec![Key::W, Key::A, Key::S, Key::D, Key::E, Key::Q];
    let (steps, pressed) = camera_steps(Motion::Turn, &keys);
    assert_eq!(
        steps,
        vec![Step::Forward, Step::Right, Step::Backward, Step::Left, Step::Up, Step::Down]
    );
    assert!(pressed);
}

#[test]
fn shifting_keys_map_to_steps() {
    let keys = vec![Key::Up, Key::Left, Key::Down, Key::Right, Key::Semicolon, Key::Apostrophe];
    let (steps, pressed) = camera_steps(Motion::Shift, &keys);
    assert_eq!(
        steps,
        vec![Step::Forward, Step::Right, Step::Backward, Step::Left, Step::Up, Step::Down]
    );
    assert!(pressed);
}

#[test]
fn only_the_last_key_decides_the_flag() {
    let (steps, pressed) = camera_steps(Motion::Turn, &vec![Key::W, Key::Other]);
    assert_eq!(steps, vec![Step::Forward]);
    assert!(!pressed);
}

#[test]
fn a_last_turning_key_keeps_the_shift() {
    let plan = plan_input(&vec![Key::Up, Key::W]);
    assert_eq!(plan.turn, vec![Step::Forward]);
    assert_eq!(plan.shift, vec![Step::Forward]);
    assert!(plan.reset);
}

#[test]
fn a_last_shifting_key_applies_both() {
    let plan = plan_input(&vec![Key::W, Key::Down]);
    assert_eq!(plan.turn, vec![Step::Forward]);
    assert_eq!(plan.shift, vec![Step::Backward]);
    assert!(plan.reset);
}

#[test]
fn any_moving_key_resets_the_accumulation() {
    let plan = plan_input(&vec![Key::W, Key::Left, Key::Other]);
    assert_eq!(plan.turn, vec![Step::Forward]);
    assert_eq!(plan.shift, vec![Step::Right]);
    assert!(plan.reset);
}

#[test]
fn a_turn_then_an_idle_key_resets() {
    let plan = plan_input(&vec![Key::W, Key::Other]);
    assert_eq!(plan.turn, vec![Step::Forward]);
    assert!(plan.shift.is_empty());
    assert!(plan.reset);
}

#[test]
fn idle_keys_keep_the_accumulation() {
    let plan = plan_input(&vec![Key::Other, Key::Other]);
    assert!(plan.turn.is_empty());
    assert!(plan.shift.is_empty());
    assert!(!plan.reset);
}
