//! The input symbol exchanged between peers: encoding of held keys and
//! decoding into a facing.

use vstd::prelude::*;
use crate::components::Direction;

verus! {

pub const INPUT_UP_RIGHT: u8 = 1;

pub const INPUT_RIGHT: u8 = 2;

pub const INPUT_DOWN_RIGHT: u8 = 4;

pub const INPUT_DOWN_LEFT: u8 = 8;

pub const INPUT_LEFT: u8 = 16;

pub const INPUT_UP_LEFT: u8 = 32;

/// Which of the movement keys are held: the four axes, and the brake.
#[derive(Clone, Copy, Debug, PartialEq, Eq, Structural)]
pub struct Keys {
    pub up: bool,
    pub right: bool,
    pub down: bool,
    pub left: bool,
    pub brake: bool,
}

/// The symbol of a key state: one bit for the direction that the held axes
/// spell, and zero for every other combination. The brake changes nothing.
pub open spec fn encode(keys: Keys) -> u8 {
    match (keys.up, keys.right, keys.down, keys.left) {
        (true, true, false, false) => INPUT_UP_RIGHT,
        (false, true, false, false) => INPUT_RIGHT,
        (false, true, true, false) => INPUT_DOWN_RIGHT,
        (false, false, true, true) => INPUT_DOWN_LEFT,
        (false, false, false, true) => INPUT_LEFT,
        (true, false, false, true) => INPUT_UP_LEFT,
        _ => 0u8,
    }
}

/// The direction that a symbol names, if it is exactly one direction bit.
pub open spec fn named_direction(symbol: u8) -> Option<Direction> {
    if symbol == INPUT_UP_RIGHT {
        Some(Direction::UpRight)
    } else if symbol == INPUT_RIGHT {
        Some(Direction::Right)
    } else if symbol == INPUT_DOWN_RIGHT {
        Some(Direction::DownRight)
    } else if symbol == INPUT_DOWN_LEFT {
        Some(Direction::DownLeft)
    } else if symbol == INPUT_LEFT {
        Some(Direction::Left)
    } else if symbol == INPUT_UP_LEFT {
        Some(Direction::UpLeft)
    } else {
        None
    }
}

/// The facing after a symbol arrives: the direction it names, or the current
/// facing where it names none.
pub open spec fn steered(symbol: u8, current: Direction) -> Direction {
    match named_direction(symbol) {
        Some(d) => d,
        None => current,
    }
}

/// The keys a player holds to face direction `d`; none for `Direction::Neutral`.
pub open spec fn chord(d: Direction, brake: bool) -> Keys {
    match d {
        Direction::UpRight => Keys { up: true, right: true, down: false, left: false, brake },
        Direction::Right => Keys { up: false, right: true, down: false, left: false, brake },
        Direction::DownRight => Keys { up: false, right: true, down: true, left: false, brake },
        Direction::DownLeft => Keys { up: false, right: false, down: true, left: true, brake },
        Direction::Left => Keys { up: false, right: false, down: false, left: true, brake },
        Direction::UpLeft => Keys { up: true, right: false, down: false, left: true, brake },
        Direction::Neutral => Keys { up: false, right: false, down: false, left: false, brake },
    }
}

/// Encodes the keys held by the local player into the symbol sent to all peers.
pub fn input(_handle: usize, keys: Keys) -> (symbol: u8)
    ensures
        symbol == encode(keys),
{
    let mut input: u8 = 0;
    if keys.up && !keys.right && !keys.down && !keys.left {
    } else if keys.up && keys.right && !keys.down && !keys.left {
        input = INPUT_UP_RIGHT;
    } else if !keys.up && keys.right && !keys.down && !keys.left {
        input = INPUT_RIGHT;
    } else if !keys.up && keys.right && keys.down && !keys.left {
        input = INPUT_DOWN_RIGHT;
    } else if !keys.up && !keys.right && keys.down && !keys.left {
    } else if !keys.up && !keys.right && keys.down && keys.left {
        input = INPUT_DOWN_LEFT;
    } else if !keys.up && !keys.right && !keys.down && keys.left {
        input = INPUT_LEFT;
    } else if keys.up && !keys.right && !keys.down && keys.left {
        input = INPUT_UP_LEFT;
    }
    input
}

/// Decodes a symbol against the current facing.
pub fn decode(symbol: u8, current: Direction) -> (d: Direction)
    ensures
        d == steered(symbol, current),
{
    if symbol == INPUT_UP_RIGHT {
        Direction::UpRight
    } else if symbol == INPUT_RIGHT {
        Direction::Right
    } else if symbol == INPUT_DOWN_RIGHT {
        Direction::DownRight
    } else if symbol == INPUT_DOWN_LEFT {
        Direction::DownLeft
    } else if symbol == INPUT_LEFT {
        Direction::Left
    } else if symbol == INPUT_UP_LEFT {
        Direction::UpLeft
    } else {
        current
    }
}

/// Holding the chord of a direction and decoding the symbol gives that
/// direction, whatever the facing was and whether or not the brake is held.
pub proof fn lemma_chord_round_trip(d: Direction, brake: bool, current: Direction)
    requires
        d != Direction::Neutral,
    ensures
        steered(encode(chord(d, brake)), current) == d,
{
}

/// Every symbol that encoding produces is zero or a single direction bit, and
/// the brake never changes it.
pub proof fn lemma_encode_range(keys: Keys)
    ensures
        encode(keys) == 0 || named_direction(encode(keys)).is_some(),
        encode(keys) == encode(Keys { brake: !keys.brake, ..keys }),
{
}

/// Up together with down, either vertical key alone, the brake alone and no
/// key at all encode to zero, and zero leaves the facing as it was.
pub proof fn lemma_zero_symbol(keys: Keys, current: Direction)
    ensures
        keys.up && keys.down ==> encode(keys) == 0,
        !keys.right && !keys.left ==> encode(keys) == 0,
        steered(0, current) == current,
{
}

/// A symbol that is not one of the six direction bits leaves the facing as it was.
pub proof fn lemma_invalid_symbol_keeps_facing(symbol: u8, current: Direction)
    requires
        named_direction(symbol).is_none(),
    ensures
        steered(symbol, current) == current,
{
}

} // verus!
