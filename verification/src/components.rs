//! Plain data of the simulation: directions, hex coordinates, heads and the
//! markers and links that tie body segments into a chain.

use vstd::prelude::*;
use vstd::arithmetic::div_mod::lemma_mod_bound;
use bevy::time::Timer;
use std::time::Duration;

verus! {

/// One of the six neighbour directions of a hex, or no direction at all.
#[derive(Clone, Copy, Debug, PartialEq, Eq, Structural)]
pub enum Direction {
    UpRight,
    Right,
    DownRight,
    DownLeft,
    Left,
    UpLeft,
    Neutral,
}

impl Default for Direction {
    fn default() -> (d: Self)
        ensures
            d == Direction::Neutral,
    {
        Direction::Neutral
    }
}

impl Direction {
    /// Change of `q` made by one step in this direction.
    pub open spec fn dq(self) -> int {
        match self {
            Direction::UpRight | Direction::Right => 1,
            Direction::DownLeft | Direction::Left => -1,
            Direction::DownRight | Direction::UpLeft | Direction::Neutral => 0,
        }
    }

    /// Change of `r` made by one step in this direction.
    pub open spec fn dr(self) -> int {
        match self {
            Direction::DownRight | Direction::DownLeft => 1,
            Direction::UpRight | Direction::UpLeft => -1,
            Direction::Right | Direction::Left | Direction::Neutral => 0,
        }
    }
}

/// Index of a player within a session: 0 or 1, fixed for its lifetime.
#[derive(Clone, Copy, Debug, PartialEq, Eq, Structural)]
pub struct Player {
    pub handle: usize,
}

/// Link from a segment to the one directly ahead of it in its snake.
#[derive(Clone, Copy, Debug, PartialEq, Eq, Structural)]
pub struct Following(pub usize);

/// Link from a segment to the one directly behind it in its snake.
#[derive(Clone, Copy, Debug, PartialEq, Eq, Structural)]
pub struct Follower(pub usize);

/// An axial coordinate on the hex grid.
#[derive(Clone, Copy, Debug, PartialEq, Eq, Structural)]
pub struct Hex {
    pub q: i64,
    pub r: i64,
}

impl Default for Hex {
    fn default() -> (h: Self)
        ensures
            h == (Hex { q: 0, r: 0 }),
    {
        Hex { q: 0, r: 0 }
    }
}

impl Hex {
    /// Both coordinates are strictly inside the `i64` range, so a step in any
    /// direction stays representable.
    pub open spec fn interior(self) -> bool {
        i64::MIN < self.q < i64::MAX && i64::MIN < self.r < i64::MAX
    }

    /// The hex one step away in direction `d`.
    pub open spec fn neighbor(self, d: Direction) -> Hex {
        Hex { q: (self.q + d.dq()) as i64, r: (self.r + d.dr()) as i64 }
    }

    /// Whether a step in any direction stays representable.
    pub fn is_interior(&self) -> (b: bool)
        ensures
            b == self.interior(),
    {
        i64::MIN < self.q && self.q < i64::MAX && i64::MIN < self.r && self.r < i64::MAX
    }

    /// Moves one step in direction `d`.
    pub fn step(&self, d: Direction) -> (h: Hex)
        requires
            self.interior(),
        ensures
            h == self.neighbor(d),
            h.q == self.q + d.dq(),
            h.r == self.r + d.dr(),
    {
        match d {
            Direction::UpRight => Hex { q: self.q + 1, r: self.r - 1 },
            Direction::Right => Hex { q: self.q + 1, r: self.r },
            Direction::DownRight => Hex { q: self.q, r: self.r + 1 },
            Direction::DownLeft => Hex { q: self.q - 1, r: self.r + 1 },
            Direction::Left => Hex { q: self.q - 1, r: self.r },
            Direction::UpLeft => Hex { q: self.q, r: self.r - 1 },
            Direction::Neutral => Hex { q: self.q, r: self.r },
        }
    }
}

/// Past positions of one segment, oldest first. Entries are only ever appended.
#[derive(Debug)]
pub struct HexHistory(pub Vec<Hex>);

impl Default for HexHistory {
    fn default() -> (h: Self)
        ensures
            h.0@ == Seq::<Hex>::empty(),
    {
        HexHistory(Vec::new())
    }
}

/// Steering state of a snake: where it faces, and where it faced at its last step.
#[derive(Clone, Copy, Debug, PartialEq, Eq, Structural)]
pub struct Head {
    pub direction: Direction,
    pub last_direction: Direction,
}

impl Default for Head {
    fn default() -> (h: Self)
        ensures
            h == (Head { direction: Direction::Neutral, last_direction: Direction::Neutral }),
    {
        Head { direction: Direction::Neutral, last_direction: Direction::Neutral }
    }
}

/// Segment identifiers of one snake, from the head's own to the tail-most.
#[derive(Debug)]
pub struct Body(pub Vec<usize>);

impl Default for Body {
    fn default() -> (b: Self)
        ensures
            b.0@ == Seq::<usize>::empty(),
    {
        Body(Vec::new())
    }
}

/// Marks the last segment of a chain.
#[derive(Clone, Copy, Debug, PartialEq, Eq, Structural)]
pub struct Tail;

/// A piece of food lying on one hex.
#[derive(Clone, Copy, Debug, PartialEq, Eq, Structural)]
pub struct Crumple {
    pub hex: Hex,
}

/// Half-width of the map, the bound of both coordinates of fresh food.
#[derive(Clone, Copy, Debug, PartialEq, Eq, Structural)]
pub struct WorldSize(pub u32);

/// One tick of a repeating `bevy::time::Timer` of period `duration` that is
/// `elapsed` nanoseconds into its period: the body builds that timer with
/// `Timer::new` and `Timer::set_elapsed`, calls `Timer::tick` with `delta`
/// nanoseconds and reads back `Timer::elapsed` and `Timer::finished`.
///
/// Trusted, not proved: the tick adds `delta` to the elapsed time, the timer
/// is finished exactly when the sum has reached the period, and it then
/// keeps what is left of the sum after the whole periods are taken off. The
/// timer counts the periods that one tick completes in 32 bits and divides
/// by the period, so the contract asks for a period above zero and for a
/// count that fits.
#[verifier::external_body]
fn timer_tick(duration: u64, elapsed: u64, delta: u64) -> (out: (u64, bool))
    requires
        duration > 0,
        elapsed < duration,
        (elapsed + delta) / (duration as int) <= u32::MAX,
    ensures
        out.0 == (elapsed + delta) % (duration as int),
        out.1 == (elapsed + delta >= duration),
{
    let mut timer = Timer::new(Duration::from_nanos(duration), true);
    timer.set_elapsed(Duration::from_nanos(elapsed));
    timer.tick(Duration::from_nanos(delta));
    (timer.elapsed().as_nanos() as u64, timer.finished())
}

/// Repeating timer that gates how often a head advances.
///
/// Time is counted in nanoseconds; `elapsed` is the time into the current
/// period and `finished` tells whether the latest tick completed a period.
#[derive(Clone, Copy, Debug, PartialEq, Eq, Structural)]
pub struct MovementCooldown {
    pub duration: u64,
    pub elapsed: u64,
    pub finished: bool,
}

impl MovementCooldown {
    /// The period is not empty and the time into it lies inside it.
    pub open spec fn wf(self) -> bool {
        self.duration > 0 && self.elapsed < self.duration
    }

    /// A tick of `delta` completes no more periods than a 32-bit count holds.
    pub open spec fn ticks_within(self, delta: u64) -> bool {
        (self.elapsed + delta) / (self.duration as int) <= u32::MAX
    }

    /// The timer after `delta` more nanoseconds: it finishes when the period's end
    /// is reached, and then starts over with what is left of the time.
    pub open spec fn ticked(self, delta: u64) -> MovementCooldown {
        MovementCooldown {
            duration: self.duration,
            elapsed: ((self.elapsed + delta) % (self.duration as int)) as u64,
            finished: self.elapsed + delta >= self.duration,
        }
    }

    /// A fresh timer with the given period.
    pub fn new(duration: u64) -> (c: Self)
        requires
            duration > 0,
        ensures
            c == (MovementCooldown { duration, elapsed: 0, finished: false }),
            c.wf(),
    {
        MovementCooldown { duration, elapsed: 0, finished: false }
    }

    /// Whether a tick of `delta` is one that the timer can count.
    pub fn can_tick(&self, delta: u64) -> (b: bool)
        requires
            self.duration > 0,
        ensures
            b == self.ticks_within(delta),
    {
        let total: u128 = self.elapsed as u128 + delta as u128;
        total / (self.duration as u128) <= u32::MAX as u128
    }

    /// Advances the timer by `delta` nanoseconds.
    pub fn tick(&mut self, delta: u64)
        requires
            old(self).wf(),
            old(self).ticks_within(delta),
        ensures
            *final(self) == old(self).ticked(delta),
            final(self).wf(),
    {
        let (elapsed, finished) = timer_tick(self.duration, self.elapsed, delta);
        proof {
            lemma_mod_bound(self.elapsed + delta, self.duration as int);
        }
        self.elapsed = elapsed;
        self.finished = finished;
    }

    /// Whether the latest tick completed a period.
    pub fn finished(&self) -> (b: bool)
        ensures
            b == self.finished,
    {
        self.finished
    }
}

} // verus!
