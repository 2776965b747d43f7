use vstd::prelude::*;

verus! {

/// A key of the control channel.
#[derive(Clone, Copy, Debug, PartialEq, Eq, Structural)]
pub enum Key {
    W,
    A,
    S,
    D,
    E,
    Q,
    Up,
    Down,
    Left,
    Right,
    Semicolon,
    Apostrophe,
    Other,
}

/// A step of the camera's eye, one speed long, in the camera's own frame:
/// along the view direction, along the sideways axis, or along the up vector.
#[derive(Clone, Copy, Debug, PartialEq, Eq, Structural)]
pub enum Step {
    Forward,
    Backward,
    Right,
    Left,
    Up,
    Down,
}

/// How a step is applied: `Turn` moves the eye alone, so that the camera
/// turns about the point it looks at; `Shift` moves the eye and that point
/// together.
#[derive(Clone, Copy, Debug, PartialEq, Eq, Structural)]
pub enum Motion {
    Turn,
    Shift,
}

/// The step that a key asks for under a motion, if any.
pub open spec fn step_of(motion: Motion, key: Key) -> Option<Step> {
    match motion {
        Motion::Turn => match key {
            Key::W => Some(Step::Forward),
            Key::A => Some(Step::Right),
            Key::S => Some(Step::Backward),
            Key::D => Some(Step::Left),
            Key::E => Some(Step::Up),
            Key::Q => Some(Step::Down),
            _ => None,
        },
        Motion::Shift => match key {
            Key::Up => Some(Step::Forward),
            Key::Left => Some(Step::Right),
            Key::Down => Some(Step::Backward),
            Key::Right => Some(Step::Left),
            Key::Semicolon => Some(Step::Up),
            Key::Apostrophe => Some(Step::Down),
            _ => None,
        },
    }
}

/// The steps that the keys ask for under a motion, in the order of the keys.
pub open spec fn steps_of(motion: Motion, keys: Seq<Key>) -> Seq<Step>
    decreases keys.len(),
{
    if keys.len() == 0 {
        seq![]
    } else {
        let rest = steps_of(motion, keys.drop_last());
        match step_of(motion, keys.last()) {
            Some(s) => rest.push(s),
            None => rest,
        }
    }
}

/// The last key pressed asks for a step under the motion.
pub open spec fn ends_with_step(motion: Motion, keys: Seq<Key>) -> bool {
    keys.len() > 0 && step_of(motion, keys.last()).is_some()
}

/// What a batch of pressed keys does to the camera: the steps to take by
/// turning, then those to take by shifting, and whether the picture changed
/// so that the accumulated frames must be dropped.
#[derive(Debug)]
pub struct InputPlan {
    pub turn: Vec<Step>,
    pub shift: Vec<Step>,
    pub reset: bool,
}

fn step_for(motion: Motion, key: Key) -> (r: Option<Step>)
    ensures
        r == step_of(motion, key),
{
    match motion {
        Motion::Turn => match key {
            Key::W => Some(Step::Forward),
            Key::A => Some(Step::Right),
            Key::S => Some(Step::Backward),
            Key::D => Some(Step::Left),
            Key::E => Some(Step::Up),
            Key::Q => Some(Step::Down),
            _ => None,
        },
        Motion::Shift => match key {
            Key::Up => Some(Step::Forward),
            Key::Left => Some(Step::Right),
            Key::Down => Some(Step::Backward),
            Key::Right => Some(Step::Left),
            Key::Semicolon => Some(Step::Up),
            Key::Apostrophe => Some(Step::Down),
            _ => None,
        },
    }
}

/// The steps that `keys` ask for under `motion`, and whether the last key
/// asked for one.
pub fn camera_steps(motion: Motion, keys: &Vec<Key>) -> (r: (Vec<Step>, bool))
    ensures
        r.0@ == steps_of(motion, keys@),
        r.1 == ends_with_step(motion, keys@),
{
    let mut steps: Vec<Step> = Vec::new();
    let mut pressed = false;
    let mut k: usize = 0;
    while k < keys.len()
        invariant
            k <= keys@.len(),
            steps@ == steps_of(motion, keys@.subrange(0, k as int)),
            pressed == ends_with_step(motion, keys@.subrange(0, k as int)),
        decreases keys@.len() - k,
    {
        proof {
            let next = keys@.subrange(0, k + 1);
            assert(next.drop_last() =~= keys@.subrange(0, k as int));
            assert(next.last() == keys@[k as int]);
        }
        match step_for(motion, keys[k]) {
            Some(s) => {
                steps.push(s);
                pressed = true;
            },
            None => {
                pressed = false;
            },
        }
        k = k + 1;
    }
    proof {
        assert(keys@.subrange(0, keys@.len() as int) =~= keys@);
    }
    (steps, pressed)
}

/// Interprets a batch of pressed keys. The turning keys are applied first,
/// then the shifting keys. The accumulation restarts whenever any key of the
/// batch moved the camera.
pub fn plan_input(keys: &Vec<Key>) -> (r: InputPlan)
    ensures
        r.turn@ == steps_of(Motion::Turn, keys@),
        r.shift@ == steps_of(Motion::Shift, keys@),
        r.reset == (r.turn@.len() > 0 || r.shift@.len() > 0),
{
    let (turn, _) = camera_steps(Motion::Turn, keys);
    let (shift, _) = camera_steps(Motion::Shift, keys);
    let reset = turn.len() > 0 || shift.len() > 0;
    InputPlan { turn, shift, reset }
}

} // verus!
