//! A snake as a chain of segments: head motion, follow-the-leader
//! propagation down the chain, and growth at the tail.

use vstd::prelude::*;
use crate::components::{
    Body, Direction, Follower, Following, Head, Hex, HexHistory, MovementCooldown, Player, Tail,
};
use crate::input::{decode, steered};

verus! {

/// One body part: where it is, where it has been, and its links in the chain.
#[derive(Debug)]
pub struct Segment {
    pub hex: Hex,
    pub history: HexHistory,
    pub following: Option<Following>,
    pub follower: Option<Follower>,
    pub tail: Option<Tail>,
}

/// A segment as contracts see it.
pub ghost struct SegmentModel {
    pub hex: Hex,
    pub history: Seq<Hex>,
    pub following: Option<Following>,
    pub follower: Option<Follower>,
    pub tail: bool,
}

impl View for Segment {
    type V = SegmentModel;

    open spec fn view(&self) -> SegmentModel {
        SegmentModel {
            hex: self.hex,
            history: self.history.0@,
            following: self.following,
            follower: self.follower,
            tail: self.tail.is_some(),
        }
    }
}

impl SegmentModel {
    /// The links and the tail marker that the segment at place `i` of a
    /// chain of `n` segments carries.
    pub open spec fn linked_at(self, i: int, n: int) -> bool {
        &&& self.following == (if i == 0 {
            None
        } else {
            Some(Following((i - 1) as usize))
        })
        &&& self.follower == (if i == n - 1 {
            None
        } else {
            Some(Follower((i + 1) as usize))
        })
        &&& self.tail == (i == n - 1)
    }

    /// Every hex the segment has occupied, oldest first, ending where it is now.
    pub open spec fn path(self) -> Seq<Hex> {
        self.history.push(self.hex)
    }
}

/// Tells a segment to take the place that the segment ahead of it has left.
#[derive(Clone, Copy, Debug, PartialEq, Eq, Structural)]
pub struct UpdateFollower {
    pub entity: usize,
    pub hex: Hex,
}

/// A snake: its player, its steering state and cooldown, and its segments.
/// A segment's identifier is its index in `segments`; `body` lists the
/// identifiers from the head's own segment to the tail.
#[derive(Debug)]
pub struct Snake {
    pub player: Player,
    pub head: Head,
    pub cooldown: MovementCooldown,
    pub body: Body,
    pub segments: Vec<Segment>,
}

/// A snake as contracts see it.
pub ghost struct SnakeModel {
    pub player: Player,
    pub head: Head,
    pub cooldown: MovementCooldown,
    pub body: Seq<usize>,
    pub segments: Seq<SegmentModel>,
}

impl View for Snake {
    type V = SnakeModel;

    open spec fn view(&self) -> SnakeModel {
        SnakeModel {
            player: self.player,
            head: self.head,
            cooldown: self.cooldown,
            body: self.body.0@,
            segments: Seq::new(self.segments@.len(), |k: int| self.segments@[k]@),
        }
    }
}

impl SnakeModel {
    /// A snake of one segment at `start`, facing nowhere, with a fresh cooldown.
    pub open spec fn fresh(handle: usize, start: Hex, period: u64) -> SnakeModel {
        SnakeModel {
            player: Player { handle },
            head: Head { direction: Direction::Neutral, last_direction: Direction::Neutral },
            cooldown: MovementCooldown { duration: period, elapsed: 0, finished: false },
            body: seq![0usize],
            segments: seq![
                SegmentModel {
                    hex: start,
                    history: Seq::empty(),
                    following: None,
                    follower: None,
                    tail: true,
                },
            ],
        }
    }

    /// The segments form one unbroken chain in the order of the body list:
    /// each segment follows the one before it and is followed by the one
    /// after it, the first follows nothing, and only the last is the tail.
    pub open spec fn chained(self) -> bool {
        &&& 1 <= self.segments.len() <= usize::MAX
        &&& self.body.len() == self.segments.len()
        &&& forall|i: int| 0 <= i < self.body.len() ==> #[trigger] self.body[i] == i
        &&& forall|i: int|
            0 <= i < self.segments.len() ==> (#[trigger] self.segments[i]).linked_at(
                i,
                self.segments.len() as int,
            )
    }

    /// Segment `k` replays the path of the segment ahead of it: it started
    /// on a hex of that path, and each later hex of its own path is the one
    /// that the segment ahead had occupied just before.
    pub open spec fn trails(self, k: int) -> bool {
        let ahead = self.segments[k - 1].path();
        let own = self.segments[k].path();
        let lag = ahead.len() - own.len();
        &&& own.len() <= ahead.len()
        &&& forall|j: int|
            0 <= j < own.len() ==> #[trigger] own[j] == ahead[lag + if j == 0 {
                0
            } else {
                j - 1
            }]
    }

    /// Every segment behind the head replays the path of the one ahead of it.
    pub open spec fn trailing(self) -> bool {
        forall|k: int| 1 <= k < self.segments.len() ==> #[trigger] self.trails(k)
    }

    /// The snake is a chain whose segments trail one another, and its
    /// cooldown is in order.
    pub open spec fn wf(self) -> bool {
        self.chained() && self.trailing() && self.cooldown.wf()
    }

    /// The hex on which the head stood `k` moves ago.
    pub open spec fn head_was(self, k: int) -> Hex {
        self.segments[0].path()[self.segments[0].history.len() - k]
    }

    /// Position of the head.
    pub open spec fn head_hex(self) -> Hex {
        self.segments[0].hex
    }

    /// Identifier of the tail segment.
    pub open spec fn tail_id(self) -> usize {
        self.body.last()
    }

    /// The snake after an input symbol: only the facing may change.
    pub open spec fn steer(self, symbol: u8) -> SnakeModel {
        SnakeModel {
            head: Head { direction: steered(symbol, self.head.direction), ..self.head },
            ..self
        }
    }

    /// Segment `k` after the whole chain has moved one place: the head steps
    /// to its neighbour in the facing direction, every other segment takes
    /// the place of the one ahead, and each records where it was.
    pub open spec fn moved_segment(self, k: int) -> SegmentModel {
        let s = self.segments[k];
        SegmentModel {
            hex: if k == 0 {
                s.hex.neighbor(self.head.direction)
            } else {
                self.segments[k - 1].hex
            },
            history: s.history.push(s.hex),
            ..s
        }
    }

    /// The snake after one hex step of the whole chain.
    pub open spec fn moved(self) -> SnakeModel {
        SnakeModel {
            head: Head { direction: self.head.direction, last_direction: self.head.direction },
            segments: Seq::new(self.segments.len(), |k: int| self.moved_segment(k)),
            ..self
        }
    }

    /// The snake after a tick of `delta` time units: the cooldown advances,
    /// and the chain moves one place exactly when the tick completes a period.
    pub open spec fn advance(self, delta: u64) -> SnakeModel {
        let ticked = SnakeModel { cooldown: self.cooldown.ticked(delta), ..self };
        if ticked.cooldown.finished {
            ticked.moved()
        } else {
            ticked
        }
    }

    /// The position that segment `k` hands to its follower while a move runs
    /// down the chain: the latest entry of its history.
    pub open spec fn handed_on(self, k: int) -> Hex {
        self.segments[k].history.last()
    }

    /// Segment `k` after the segments behind the head have caught up with a
    /// head that has already stepped.
    pub open spec fn followed_segment(self, k: int) -> SegmentModel {
        let s = self.segments[k];
        if k == 0 {
            s
        } else {
            SegmentModel {
                hex: if k == 1 {
                    self.handed_on(0)
                } else {
                    self.segments[k - 1].hex
                },
                history: s.history.push(s.hex),
                ..s
            }
        }
    }

    /// The snake after one more segment has been attached behind the tail:
    /// the new segment lies on the former tail's hex with an empty history.
    pub open spec fn grow(self) -> SnakeModel {
        let n = self.segments.len() as int;
        let tail = self.segments[n - 1];
        SnakeModel {
            body: self.body.push(n as usize),
            segments: self.segments.update(
                n - 1,
                SegmentModel { follower: Some(Follower(n as usize)), tail: false, ..tail },
            ).push(
                SegmentModel {
                    hex: tail.hex,
                    history: Seq::empty(),
                    following: Some(Following((n - 1) as usize)),
                    follower: None,
                    tail: true,
                },
            ),
            ..self
        }
    }

}

impl Segment {
    /// Whether the segment carries the links and the marker of place `i` in
    /// a chain of `n` segments.
    pub fn is_linked_at(&self, i: usize, n: usize) -> (b: bool)
        requires
            i < n,
        ensures
            b == self@.linked_at(i as int, n as int),
    {
        let ahead = match self.following {
            Some(f) => i > 0 && f.0 == i - 1,
            None => i == 0,
        };
        let behind = match self.follower {
            Some(f) => i < n - 1 && f.0 == i + 1,
            None => i == n - 1,
        };
        let marker = match self.tail {
            Some(_) => i == n - 1,
            None => i != n - 1,
        };
        ahead && behind && marker
    }

    /// The hex at place `j` of the segment's path.
    pub fn path_at(&self, j: usize) -> (h: Hex)
        requires
            j <= self@.history.len(),
        ensures
            h == self@.path()[j as int],
    {
        if j < self.history.0.len() {
            self.history.0[j]
        } else {
            self.hex
        }
    }

    /// A copy of the segment for a checkpoint.
    pub fn snapshot(&self) -> (copy: Segment)
        ensures
            copy@ == self@,
    {
        let mut history: Vec<Hex> = Vec::new();
        let n = self.history.0.len();
        let mut j: usize = 0;
        while j < n
            invariant
                n == self.history.0@.len(),
                j <= n,
                history@ == self.history.0@.take(j as int),
            decreases n - j,
        {
            history.push(self.history.0[j]);
            assert(history@ =~= self.history.0@.take(j + 1));
            j += 1;
        }
        assert(history@ =~= self.history.0@);
        Segment {
            hex: self.hex,
            history: HexHistory(history),
            following: self.following,
            follower: self.follower,
            tail: self.tail,
        }
    }
}

impl Snake {
    /// A copy of the snake for a checkpoint.
    pub fn snapshot(&self) -> (copy: Snake)
        ensures
            copy@ == self@,
    {
        let mut body: Vec<usize> = Vec::new();
        let n = self.body.0.len();
        let mut j: usize = 0;
        while j < n
            invariant
                n == self.body.0@.len(),
                j <= n,
                body@ == self.body.0@.take(j as int),
            decreases n - j,
        {
            body.push(self.body.0[j]);
            assert(body@ =~= self.body.0@.take(j + 1));
            j += 1;
        }
        assert(body@ =~= self.body.0@);
        let mut segments: Vec<Segment> = Vec::new();
        let m = self.segments.len();
        let mut k: usize = 0;
        while k < m
            invariant
                m == self.segments@.len(),
                k <= m,
                segments@.len() == k,
                forall|i: int| 0 <= i < k ==> (#[trigger] segments@[i])@ == self.segments@[i]@,
            decreases m - k,
        {
            segments.push(self.segments[k].snapshot());
            k += 1;
        }
        let copy = Snake {
            player: self.player,
            head: self.head,
            cooldown: self.cooldown,
            body: Body(body),
            segments,
        };
        assert(copy@.segments =~= self@.segments);
        copy
    }

    /// Whether the segments form one chain in the order of the body list.
    pub fn is_chained(&self) -> (b: bool)
        ensures
            b == self@.chained(),
    {
        let n = self.segments.len();
        if n == 0 || self.body.0.len() != n {
            return false;
        }
        let mut i: usize = 0;
        while i < n
            invariant
                n == self.segments@.len(),
                n == self.body.0@.len(),
                1 <= n,
                i <= n,
                forall|k: int| 0 <= k < i ==> #[trigger] self@.body[k] == k,
                forall|k: int| 0 <= k < i ==> (#[trigger] self@.segments[k]).linked_at(k, n as int),
            decreases n - i,
        {
            if self.body.0[i] != i || !self.segments[i].is_linked_at(i, n) {
                assert(self@.segments[i as int] == self.segments@[i as int]@);
                assert(self@.body[i as int] == self.body.0@[i as int]);
                return false;
            }
            i += 1;
        }
        true
    }

    /// Whether segment `k` replays the path of the segment ahead of it.
    pub fn is_trailing_at(&self, k: usize) -> (b: bool)
        requires
            1 <= k < self@.segments.len(),
        ensures
            b == self@.trails(k as int),
    {
        let own_len = self.segments[k].history.0.len();
        let ahead_len = self.segments[k - 1].history.0.len();
        if own_len > ahead_len {
            return false;
        }
        let lag = ahead_len - own_len;
        let ghost own = self@.segments[k as int].path();
        let ghost ahead = self@.segments[k - 1].path();
        let mut j: usize = 0;
        while j < own_len
            invariant
                1 <= k < self@.segments.len(),
                own == self@.segments[k as int].path(),
                ahead == self@.segments[k - 1].path(),
                own_len == self@.segments[k as int].history.len(),
                ahead_len == self@.segments[k - 1].history.len(),
                own_len <= ahead_len,
                lag == ahead_len - own_len,
                j <= own_len,
                forall|i: int|
                    0 <= i < j ==> #[trigger] own[i] == ahead[lag + if i == 0 {
                        0
                    } else {
                        i - 1
                    }],
            decreases own_len - j,
        {
            let from: usize = if j == 0 {
                lag
            } else {
                lag + (j - 1)
            };
            if self.segments[k].path_at(j) != self.segments[k - 1].path_at(from) {
                assert(own[j as int] != ahead[lag + if j == 0 {
                    0
                } else {
                    j - 1
                }]);
                return false;
            }
            j += 1;
        }
        let from: usize = if own_len == 0 {
            lag
        } else {
            lag + (own_len - 1)
        };
        let last = self.segments[k].path_at(own_len) == self.segments[k - 1].path_at(from);
        assert(last == (own[own_len as int] == ahead[lag + if own_len == 0 {
            0
        } else {
            own_len - 1
        }]));
        last
    }

    /// Whether the snake is well formed: one chain, every segment trailing
    /// the one ahead of it, and the cooldown inside its period.
    pub fn is_wf(&self) -> (b: bool)
        ensures
            b == self@.wf(),
    {
        if !self.is_chained() {
            return false;
        }
        if self.cooldown.duration == 0 || self.cooldown.elapsed >= self.cooldown.duration {
            return false;
        }
        let n = self.segments.len();
        let mut k: usize = 1;
        while k < n
            invariant
                n == self@.segments.len(),
                1 <= k <= n,
                forall|i: int| 1 <= i < k ==> #[trigger] self@.trails(i),
            decreases n - k,
        {
            if !self.is_trailing_at(k) {
                return false;
            }
            k += 1;
        }
        true
    }

    /// A snake of one segment at `start` for player `handle`, whose head may
    /// step once every `period` time units.
    pub fn new(handle: usize, start: Hex, period: u64) -> (s: Snake)
        requires
            period > 0,
        ensures
            s@ == SnakeModel::fresh(handle, start, period),
            s@.wf(),
    {
        let mut segments: Vec<Segment> = Vec::new();
        segments.push(
            Segment {
                hex: start,
                history: HexHistory(Vec::new()),
                following: None,
                follower: None,
                tail: Some(Tail),
            },
        );
        let mut body: Vec<usize> = Vec::new();
        body.push(0);
        let s = Snake {
            player: Player { handle },
            head: Head { direction: Direction::Neutral, last_direction: Direction::Neutral },
            cooldown: MovementCooldown::new(period),
            body: Body(body),
            segments,
        };
        assert(s@.segments =~= SnakeModel::fresh(handle, start, period).segments);
        assert(s@.body =~= SnakeModel::fresh(handle, start, period).body);
        s
    }

    /// Position of the head.
    pub fn head_hex(&self) -> (h: Hex)
        requires
            self@.chained(),
        ensures
            h == self@.head_hex(),
    {
        self.segments[0].hex
    }

    /// Applies one input symbol to the facing.
    pub fn steer(&mut self, symbol: u8)
        ensures
            final(self)@ == old(self)@.steer(symbol),
    {
        self.head.direction = decode(symbol, self.head.direction);
    }

    /// The update that segment `id` sends to its follower after it has moved:
    /// the follower is to take the place that `id` has just left. The tail
    /// sends none.
    pub fn update_follower(&self, id: usize) -> (ev: Option<UpdateFollower>)
        requires
            id < self@.segments.len(),
            self@.segments[id as int].follower.is_some() ==> self@.segments[id as int].history.len()
                > 0,
        ensures
            ev == match self@.segments[id as int].follower {
                Some(f) => Some(UpdateFollower { entity: f.0, hex: self@.handed_on(id as int) }),
                None => None,
            },
    {
        match self.segments[id].follower {
            Some(f) => {
                let n = self.segments[id].history.0.len();
                Some(UpdateFollower { entity: f.0, hex: self.segments[id].history.0[n - 1] })
            },
            None => None,
        }
    }

    /// Applies an update to the segment it names: the segment records where
    /// it was and moves to the hex it was handed.
    pub fn on_update_follower(&mut self, ev: UpdateFollower)
        requires
            ev.entity < old(self)@.segments.len(),
            old(self)@.segments[ev.entity as int].following.is_some(),
        ensures
            final(self)@ == (SnakeModel {
                segments: old(self)@.segments.update(
                    ev.entity as int,
                    SegmentModel {
                        hex: ev.hex,
                        history: old(self)@.segments[ev.entity as int].path(),
                        ..old(self)@.segments[ev.entity as int]
                    },
                ),
                ..old(self)@
            }),
    {
        let here = self.segments[ev.entity].hex;
        self.segments[ev.entity].history.0.push(here);
        self.segments[ev.entity].hex = ev.hex;
        assert(self@.segments =~= old(self)@.segments.update(
            ev.entity as int,
            SegmentModel {
                hex: ev.hex,
                history: old(self)@.segments[ev.entity as int].path(),
                ..old(self)@.segments[ev.entity as int]
            },
        ));
    }

    /// Runs a move down the chain after the head has stepped: every segment
    /// behind the head takes the place that the one ahead of it has left.
    pub fn follow(&mut self)
        requires
            old(self)@.chained(),
            old(self)@.segments[0].history.len() > 0,
        ensures
            final(self)@ == (SnakeModel {
                segments: Seq::new(
                    old(self)@.segments.len(),
                    |k: int| old(self)@.followed_segment(k),
                ),
                ..old(self)@
            }),
    {
        let n = self.segments.len();
        let mut k: usize = 0;
        while k + 1 < n
            invariant
                n == old(self)@.segments.len(),
                old(self)@.chained(),
                old(self)@.segments[0].history.len() > 0,
                k < n,
                self@.player == old(self)@.player,
                self@.head == old(self)@.head,
                self@.cooldown == old(self)@.cooldown,
                self@.body == old(self)@.body,
                self@.segments.len() == n,
                forall|j: int| 0 <= j <= k ==> #[trigger] self@.segments[j] == old(self)@.followed_segment(j),
                forall|j: int| k < j < n ==> #[trigger] self@.segments[j] == old(self)@.segments[j],
                self@.handed_on(k as int) == if k == 0 {
                    old(self)@.handed_on(0)
                } else {
                    old(self)@.segments[k as int].hex
                },
                self@.segments[k as int].history.len() > 0,
            decreases n - k,
        {
            assert(old(self)@.segments[k as int].linked_at(k as int, n as int));
            assert(old(self)@.segments[k + 1].linked_at(k + 1, n as int));
            let ev = self.update_follower(k);
            match ev {
                Some(ev) => {
                    self.on_update_follower(ev);
                },
                None => {},
            }
            k += 1;
            assert(self@.segments[k as int] == old(self)@.followed_segment(k as int));
        }
        assert(self@.segments =~= Seq::new(
            old(self)@.segments.len(),
            |k: int| old(self)@.followed_segment(k),
        ));
    }

    /// Advances the cooldown by `delta` and, when that completes a period,
    /// moves the snake one hex: the head records where it was and steps in
    /// the facing direction, the facing becomes the last applied direction,
    /// and the move runs down the chain.
    pub fn head_movement(&mut self, delta: u64)
        requires
            old(self)@.wf(),
            old(self)@.head_hex().interior(),
            old(self)@.cooldown.ticks_within(delta),
        ensures
            final(self)@ == old(self)@.advance(delta),
            final(self)@.wf(),
    {
        self.cooldown.tick(delta);
        if self.cooldown.finished() {
            let here = self.segments[0].hex;
            self.segments[0].history.0.push(here);
            self.segments[0].hex = here.step(self.head.direction);
            self.head.last_direction = self.head.direction;
            let ghost stepped = self@;
            assert(stepped.chained()) by {
                assert forall|i: int| 0 <= i < stepped.segments.len() implies (
                #[trigger] stepped.segments[i]).linked_at(i, stepped.segments.len() as int) by {
                    assert(old(self)@.segments[i].linked_at(i, stepped.segments.len() as int));
                }
            }
            self.follow();
            assert(self@.segments =~= old(self)@.advance(delta).segments);
        }
        proof {
            lemma_advance_keeps_wf(old(self)@, delta);
        }
    }

    /// Attaches a new segment behind `tail`, the current tail: the new
    /// segment lies on the tail's hex, follows it, and takes over the tail
    /// marker. Returns the new segment's identifier, which the body list
    /// does not hold yet.
    pub fn spawn_segment(&mut self, tail: usize) -> (follower: usize)
        requires
            old(self)@.chained(),
            tail == old(self)@.tail_id(),
        ensures
            follower == old(self)@.segments.len(),
            final(self)@ == (SnakeModel { body: old(self)@.body, ..old(self)@.grow() }),
    {
        let follower = self.segments.len();
        assert(old(self)@.body[follower - 1] == follower - 1);
        let hex = self.segments[tail].hex;
        self.segments[tail].tail = None;
        self.segments[tail].follower = Some(Follower(follower));
        self.segments.push(
            Segment {
                hex,
                history: HexHistory(Vec::new()),
                following: Some(Following(tail)),
                follower: None,
                tail: Some(Tail),
            },
        );
        assert(self@.segments =~= old(self)@.grow().segments);
        follower
    }

    /// Appends a segment identifier to the body list.
    pub fn update_body(&mut self, follower: usize)
        ensures
            final(self)@ == (SnakeModel { body: old(self)@.body.push(follower), ..old(self)@ }),
    {
        self.body.0.push(follower);
        assert(self@.segments =~= old(self)@.segments);
    }

    /// Grows the snake by one segment behind its current tail.
    pub fn grow(&mut self)
        requires
            old(self)@.chained(),
        ensures
            final(self)@ == old(self)@.grow(),
            final(self)@.chained(),
            old(self)@.wf() ==> final(self)@.wf(),
    {
        let tail = self.body.0[self.body.0.len() - 1];
        let follower = self.spawn_segment(tail);
        self.update_body(follower);
        let n = self.segments.len();
        proof {
            assert(self@.segments.len() == n);
            assert(self@.segments == old(self)@.grow().segments);
            assert(old(self)@.grow().segments.len() == old(self)@.segments.len() + 1);
            lemma_grow_keeps_chain(old(self)@);
            if old(self)@.trailing() {
                lemma_grow_keeps_trail(old(self)@);
            }
        }
    }
}

/// Growth keeps the chain unbroken, lengthens the body list by exactly one
/// and adds exactly one segment, which lies on the former tail's hex with an
/// empty history. Every other segment, the former tail too, stays where it
/// is and keeps its history.
pub proof fn lemma_grow_keeps_chain(s: SnakeModel)
    requires
        s.chained(),
        s.segments.len() < usize::MAX,
    ensures
        s.grow().chained(),
        s.grow().body.len() == s.body.len() + 1,
        s.grow().body.last() == s.segments.len(),
        s.grow().segments.len() == s.segments.len() + 1,
        s.grow().segments.last().hex == s.segments.last().hex,
        s.grow().segments.last().history.len() == 0,
        forall|k: int|
            0 <= k < s.segments.len() ==> (#[trigger] s.grow().segments[k]).hex == s.segments[k].hex
                && s.grow().segments[k].history == s.segments[k].history,
        s.grow().head_hex() == s.head_hex(),
        s.grow().head == s.head,
        s.grow().cooldown == s.cooldown,
{
    let g = s.grow();
    let n = s.segments.len() as int;
    assert forall|i: int| 0 <= i < g.segments.len() implies (#[trigger] g.segments[i]).linked_at(
        i,
        g.segments.len() as int,
    ) by {
        if i < n {
            assert(s.segments[i].linked_at(i, n));
        }
    }
    assert forall|i: int| 0 <= i < g.body.len() implies #[trigger] g.body[i] == i by {
        if i < n {
            assert(s.body[i] == i);
        }
    }
}

/// Growth keeps every segment trailing the one ahead of it: the new segment
/// starts on the hex where the former tail stands.
pub proof fn lemma_grow_keeps_trail(s: SnakeModel)
    requires
        s.chained(),
        s.trailing(),
    ensures
        s.grow().trailing(),
{
    let g = s.grow();
    let n = s.segments.len() as int;
    assert forall|k: int| 1 <= k < g.segments.len() implies #[trigger] g.trails(k) by {
        if k < n {
            assert(s.trails(k));
            assert(g.segments[k].path() == s.segments[k].path());
            assert(g.segments[k - 1].path() == s.segments[k - 1].path());
        } else {
            assert(g.segments[k].path() =~= seq![s.segments[n - 1].hex]);
            assert(g.segments[k - 1].path() == s.segments[n - 1].path());
        }
    }
}

/// A move of the whole chain keeps it one unbroken chain and keeps every
/// segment trailing the one ahead of it.
pub proof fn lemma_move_keeps_chain(s: SnakeModel)
    requires
        s.chained(),
        s.trailing(),
    ensures
        s.moved().chained(),
        s.moved().trailing(),
        s.moved().body == s.body,
{
    let m = s.moved();
    let n = s.segments.len() as int;
    assert forall|i: int| 0 <= i < m.segments.len() implies (#[trigger] m.segments[i]).linked_at(
        i,
        m.segments.len() as int,
    ) by {
        assert(s.segments[i].linked_at(i, n));
    }
    assert forall|k: int| 1 <= k < m.segments.len() implies #[trigger] m.trails(k) by {
        assert(s.trails(k));
        let ahead = s.segments[k - 1].path();
        let own = s.segments[k].path();
        let ahead_after = m.segments[k - 1].path();
        let own_after = m.segments[k].path();
        assert(own_after =~= own.push(s.segments[k - 1].hex));
        assert(ahead_after =~= ahead.push(m.segments[k - 1].hex));
        let lag = ahead.len() - own.len();
        assert forall|j: int| 0 <= j < own_after.len() implies #[trigger] own_after[j]
            == ahead_after[lag + if j == 0 {
            0
        } else {
            j - 1
        }] by {
            if j < own.len() {
                assert(own[j] == ahead[lag + if j == 0 {
                    0
                } else {
                    j - 1
                }]);
            }
        }
    }
}

/// The hex `i` places before the end of segment `k`'s path is the hex
/// `i + k` places before the end of the head's path, as long as segment `k`
/// has moved that often.
pub proof fn lemma_trail_reaches_head(s: SnakeModel, k: int, i: int)
    requires
        s.trailing(),
        0 <= k < s.segments.len(),
        0 <= i,
        s.segments[k].history.len() >= i + k,
    ensures
        s.segments[0].history.len() >= i + k,
        s.segments[k].path()[s.segments[k].history.len() - i] == s.head_was(i + k),
    decreases k,
{
    if k > 0 {
        assert(s.trails(k));
        let own = s.segments[k].path();
        let ahead = s.segments[k - 1].path();
        let j = s.segments[k].history.len() - i;
        assert(own[j] == ahead[ahead.len() - own.len() + if j == 0 {
            0
        } else {
            j - 1
        }]);
        lemma_trail_reaches_head(s, k - 1, i + 1);
    }
}

/// Once segment `k` of a snake has moved at least `k` times, it stands on
/// the hex where the head stood exactly `k` moves ago.
pub proof fn lemma_segment_stands_where_head_was(s: SnakeModel, k: int)
    requires
        s.trailing(),
        0 <= k < s.segments.len(),
        s.segments[k].history.len() >= k,
    ensures
        s.segments[0].history.len() >= k,
        s.segments[k].hex == s.head_was(k),
{
    lemma_trail_reaches_head(s, k, 0);
}

/// No segment has moved more often than the one ahead of it.
pub proof fn lemma_histories_shorten_down_the_chain(s: SnakeModel, k: int, j: int)
    requires
        s.trailing(),
        0 <= k <= j < s.segments.len(),
    ensures
        s.segments[j].history.len() <= s.segments[k].history.len(),
    decreases j - k,
{
    if k < j {
        assert(s.trails(j));
        lemma_histories_shorten_down_the_chain(s, k, j - 1);
    }
}

/// Once the tail of a snake of `n` segments has moved at least `n - 1`
/// times, which it has when the snake has moved that often since it last
/// grew, every segment `k` stands on the hex where the head stood exactly
/// `k` moves ago.
pub proof fn lemma_whole_snake_follows_head(s: SnakeModel)
    requires
        s.trailing(),
        s.segments.len() >= 1,
        s.segments.last().history.len() >= s.segments.len() - 1,
    ensures
        forall|k: int| 0 <= k < s.segments.len() ==> (#[trigger] s.segments[k]).hex == s.head_was(k),
{
    assert forall|k: int| 0 <= k < s.segments.len() implies (#[trigger] s.segments[k]).hex
        == s.head_was(k) by {
        lemma_histories_shorten_down_the_chain(s, k, s.segments.len() - 1);
        lemma_segment_stands_where_head_was(s, k);
    }
}

/// A tick that completes a cooldown period moves the head exactly one hex
/// in the facing direction, one to the right when it faces right, however
/// many ticks the period was spread over. The head records the hex it
/// leaves, and the facing becomes the last applied direction.
pub proof fn lemma_completed_period_moves_one_hex(s: SnakeModel, delta: u64)
    requires
        s.wf(),
        s.head_hex().interior(),
        s.cooldown.elapsed + delta >= s.cooldown.duration,
    ensures
        s.advance(delta).head_hex().q == s.head_hex().q + s.head.direction.dq(),
        s.advance(delta).head_hex().r == s.head_hex().r + s.head.direction.dr(),
        s.head.direction == Direction::Right ==> s.advance(delta).head_hex() == (Hex {
            q: (s.head_hex().q + 1) as i64,
            r: s.head_hex().r,
        }),
        s.advance(delta).segments[0].history == s.segments[0].history.push(s.head_hex()),
        s.advance(delta).head.last_direction == s.head.direction,
        s.advance(delta).head.direction == s.head.direction,
{
}

/// A tick that completes no cooldown period changes nothing but the time
/// into the period, which grows by the tick's length: no segment moves, no
/// history grows, and the facing and the last applied direction stay.
pub proof fn lemma_incomplete_period_changes_only_timer(s: SnakeModel, delta: u64)
    requires
        s.wf(),
        s.cooldown.elapsed + delta < s.cooldown.duration,
    ensures
        s.advance(delta) == (SnakeModel {
            cooldown: MovementCooldown {
                duration: s.cooldown.duration,
                elapsed: (s.cooldown.elapsed + delta) as u64,
                finished: false,
            },
            ..s
        }),
{
    vstd::arithmetic::div_mod::lemma_small_mod(
        (s.cooldown.elapsed + delta) as nat,
        s.cooldown.duration as nat,
    );
}

/// Steering keeps a snake well formed and leaves every segment where it is.
pub proof fn lemma_steer_keeps_wf(s: SnakeModel, symbol: u8)
    requires
        s.wf(),
    ensures
        s.steer(symbol).wf(),
        s.steer(symbol).segments == s.segments,
        s.steer(symbol).body == s.body,
{
    let t = s.steer(symbol);
    assert forall|k: int| 1 <= k < t.segments.len() implies #[trigger] t.trails(k) by {
        assert(s.trails(k));
    }
}

/// A tick keeps a snake well formed, moves it at most one hex, and moves it
/// exactly when the tick completes a cooldown period.
pub proof fn lemma_advance_keeps_wf(s: SnakeModel, delta: u64)
    requires
        s.wf(),
    ensures
        s.advance(delta).wf(),
        s.advance(delta).body == s.body,
        s.advance(delta).head_hex() == if s.cooldown.elapsed + delta >= s.cooldown.duration {
            s.head_hex().neighbor(s.head.direction)
        } else {
            s.head_hex()
        },
{
    let ticked = SnakeModel { cooldown: s.cooldown.ticked(delta), ..s };
    assert(ticked.cooldown.wf()) by {
        vstd::arithmetic::div_mod::lemma_mod_bound(
            s.cooldown.elapsed + delta,
            s.cooldown.duration as int,
        );
    }
    assert(ticked.chained());
    assert(ticked.trailing()) by {
        assert forall|k: int| 1 <= k < ticked.segments.len() implies #[trigger] ticked.trails(k) by {
            assert(s.trails(k));
        }
    }
    if ticked.cooldown.finished {
        lemma_move_keeps_chain(ticked);
    }
}

} // verus!
