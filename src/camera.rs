//! Camera commands: which key issues which command, and what each command
//! does to a free camera and to one that orbits a target.
use crate::keys::Key;
use vstd::prelude::*;

verus! {

/// A camera command.
#[derive(Clone, Copy, Debug, PartialEq, Eq, Structural)]
pub enum Direction {
    Up,
    Down,
    Forward,
    Backward,
    Left,
    Right,
    RotateLeft,
    RotateRight,
}

/// One of the camera's own axes.
#[derive(Clone, Copy, Debug, PartialEq, Eq, Structural)]
pub enum Axis {
    Right,
    Up,
    Forward,
}

/// Whether an amount is added or taken away.
#[derive(Clone, Copy, Debug, PartialEq, Eq, Structural)]
pub enum Sign {
    Plus,
    Minus,
}

/// What a command does, for an amount that grows with the frame time.
#[derive(Clone, Copy, Debug, PartialEq, Eq, Structural)]
pub enum Motion {
    /// Moves the position along one of the camera's axes.
    Translate(Axis, Sign),
    /// Changes the distance to the orbit target.
    Zoom(Sign),
    /// Turns the camera about its up axis.
    Turn(Sign),
}

/// The command each key issues.
pub open spec fn direction_for_key(key: Key) -> Option<Direction> {
    match key {
        Key::W => Some(Direction::Up),
        Key::S => Some(Direction::Down),
        Key::A => Some(Direction::Left),
        Key::D => Some(Direction::Right),
        Key::E => Some(Direction::RotateRight),
        Key::R => Some(Direction::RotateLeft),
        Key::Up => Some(Direction::Forward),
        Key::Down => Some(Direction::Backward),
        _ => None,
    }
}

/// What `d` does. Moving forward or backward changes the distance to the
/// target while the camera orbits one, and moves the camera otherwise; the
/// other commands do the same either way.
pub open spec fn motion_of(d: Direction, orbiting: bool) -> Motion {
    match d {
        Direction::Up => Motion::Translate(Axis::Up, Sign::Plus),
        Direction::Down => Motion::Translate(Axis::Up, Sign::Minus),
        Direction::Forward => if orbiting {
            Motion::Zoom(Sign::Minus)
        } else {
            Motion::Translate(Axis::Forward, Sign::Plus)
        },
        Direction::Backward => if orbiting {
            Motion::Zoom(Sign::Plus)
        } else {
            Motion::Translate(Axis::Forward, Sign::Minus)
        },
        Direction::Left => Motion::Translate(Axis::Right, Sign::Minus),
        Direction::Right => Motion::Translate(Axis::Right, Sign::Plus),
        Direction::RotateLeft => Motion::Turn(Sign::Plus),
        Direction::RotateRight => Motion::Turn(Sign::Minus),
    }
}

impl Direction {
    /// The command `key` issues, if any.
    pub fn for_key(key: Key) -> (r: Option<Direction>)
        ensures
            r == direction_for_key(key),
    {
        match key {
            Key::W => Some(Direction::Up),
            Key::S => Some(Direction::Down),
            Key::A => Some(Direction::Left),
            Key::D => Some(Direction::Right),
            Key::E => Some(Direction::RotateRight),
            Key::R => Some(Direction::RotateLeft),
            Key::Up => Some(Direction::Forward),
            Key::Down => Some(Direction::Backward),
            _ => None,
        }
    }

    /// What this command does to a camera that orbits a target
    /// (`orbiting`) or moves freely.
    pub fn motion(&self, orbiting: bool) -> (m: Motion)
        ensures
            m == motion_of(*self, orbiting),
    {
        match self {
            Direction::Up => Motion::Translate(Axis::Up, Sign::Plus),
            Direction::Down => Motion::Translate(Axis::Up, Sign::Minus),
            Direction::Forward => if orbiting {
                Motion::Zoom(Sign::Minus)
            } else {
                Motion::Translate(Axis::Forward, Sign::Plus)
            },
            Direction::Backward => if orbiting {
                Motion::Zoom(Sign::Plus)
            } else {
                Motion::Translate(Axis::Forward, Sign::Minus)
            },
            Direction::Left => Motion::Translate(Axis::Right, Sign::Minus),
            Direction::Right => Motion::Translate(Axis::Right, Sign::Plus),
            Direction::RotateLeft => Motion::Turn(Sign::Plus),
            Direction::RotateRight => Motion::Turn(Sign::Minus),
        }
    }
}

/// The commands issued by the held keys, one per key that issues one, in
/// the order of `keys`.
pub open spec fn directions_for_keys(keys: Seq<Key>) -> Seq<Direction>
    decreases keys.len(),
{
    if keys.len() == 0 {
        Seq::empty()
    } else {
        let earlier = directions_for_keys(keys.drop_last());
        match direction_for_key(keys.last()) {
            Some(d) => earlier.push(d),
            None => earlier,
        }
    }
}

/// The commands issued this frame by the held keys, in the order the keys
/// are held.
pub fn directions(keys: &[Key]) -> (r: Vec<Direction>)
    ensures
        r@ == directions_for_keys(keys@),
{
    let mut r: Vec<Direction> = Vec::new();
    let mut idx: usize = 0;
    while idx < keys.len()
        invariant
            idx <= keys@.len(),
            r@ == directions_for_keys(keys@.subrange(0, idx as int)),
        decreases keys@.len() - idx,
    {
        proof {
            assert(keys@.subrange(0, idx + 1).drop_last() == keys@.subrange(0, idx as int));
        }
        if let Some(d) = Direction::for_key(keys[idx]) {
            r.push(d);
        }
        idx = idx + 1;
    }
    proof {
        assert(keys@.subrange(0, idx as int) == keys@);
    }
    r
}

} // verus!
