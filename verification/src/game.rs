//! The whole simulation: both snakes, the food on the map and the generator
//! that places it, stepped one tick at a time.

use vstd::prelude::*;
use crate::chain::{lemma_steer_keeps_wf, Snake, SnakeModel};
use crate::components::{Crumple, Hex, WorldSize};
use crate::rng::{bounded, Pcg32RandomT, PcgState};

verus! {

/// Time between two steps of a head, in nanoseconds.
pub const MOVEMENT_PERIOD: u64 = 750_000_000;

/// Sequence that every session's generator is seeded on.
pub const SESSION_SEQUENCE: u64 = 1;

/// Everything that decides how a session goes on: a snapshot of it is all
/// that a rollback has to keep.
#[derive(Debug)]
pub struct Game {
    pub snakes: Vec<Snake>,
    pub crumples: Vec<Crumple>,
    pub rng: Pcg32RandomT,
    pub world_size: WorldSize,
}

/// The simulation as contracts see it.
pub ghost struct GameModel {
    pub snakes: Seq<SnakeModel>,
    pub crumples: Seq<Hex>,
    pub rng: PcgState,
    pub world_size: u32,
}

impl View for Game {
    type V = GameModel;

    open spec fn view(&self) -> GameModel {
        GameModel {
            snakes: Seq::new(self.snakes@.len(), |i: int| self.snakes@[i]@),
            crumples: Seq::new(self.crumples@.len(), |j: int| self.crumples@[j].hex),
            rng: self.rng@,
            world_size: self.world_size.0,
        }
    }
}

impl GameModel {
    /// The state that a session on `seed` starts from: player 0 at
    /// `(-2, 0)` and player 1 at `(2, 0)`, each one segment long, and the
    /// first piece of food placed by a generator at `seed` on the session's
    /// sequence.
    pub open spec fn started(seed: u64, world_size: u32) -> GameModel {
        GameModel {
            snakes: seq![
                SnakeModel::fresh(0, Hex { q: -2i64, r: 0 }, MOVEMENT_PERIOD),
                SnakeModel::fresh(1, Hex { q: 2, r: 0 }, MOVEMENT_PERIOD),
            ],
            crumples: Seq::empty(),
            rng: PcgState { state: seed, inc: ((SESSION_SEQUENCE << 1) | 1) as u64 },
            world_size,
        }.spawn_crumple()
    }

    /// Every snake is a well-formed chain and the map has a width.
    pub open spec fn wf(self) -> bool {
        &&& self.world_size > 0
        &&& forall|i: int| 0 <= i < self.snakes.len() ==> (#[trigger] self.snakes[i]).wf()
    }

    /// `inputs` holds a symbol for every snake's player.
    pub open spec fn steerable(self, inputs: Seq<u8>) -> bool {
        forall|i: int|
            0 <= i < self.snakes.len() ==> (#[trigger] self.snakes[i]).player.handle < inputs.len()
    }

    /// Every head can step in any direction without leaving the `i64` range.
    pub open spec fn movable(self) -> bool {
        forall|i: int| 0 <= i < self.snakes.len() ==> (#[trigger] self.snakes[i]).head_hex().interior()
    }

    /// Every cooldown can count a tick of `delta`.
    pub open spec fn tickable(self, delta: u64) -> bool {
        forall|i: int|
            0 <= i < self.snakes.len() ==> (#[trigger] self.snakes[i]).cooldown.ticks_within(delta)
    }

    /// Every snake steered by the symbol of its player.
    pub open spec fn steer_all(self, inputs: Seq<u8>) -> GameModel {
        GameModel {
            snakes: Seq::new(
                self.snakes.len(),
                |i: int| self.snakes[i].steer(inputs[self.snakes[i].player.handle as int]),
            ),
            ..self
        }
    }

    /// Every snake advanced by a tick of `delta` time units.
    pub open spec fn advance_all(self, delta: u64) -> GameModel {
        GameModel {
            snakes: Seq::new(self.snakes.len(), |i: int| self.snakes[i].advance(delta)),
            ..self
        }
    }

    /// The game after one piece of food has been placed: two bounded draws
    /// below the map's half-width give its `q` and its `r`.
    pub open spec fn spawn_crumple(self) -> GameModel {
        let first = bounded(self.rng.state, self.rng.inc, self.world_size);
        let second = bounded(first.1, self.rng.inc, self.world_size);
        GameModel {
            crumples: self.crumples.push(Hex { q: first.0 as i64, r: second.0 as i64 }),
            rng: PcgState { state: second.1, inc: self.rng.inc },
            ..self
        }
    }

    /// Whether the head of snake `i` lies on food `j`.
    pub open spec fn overlaps(self, i: int, j: int) -> bool {
        self.snakes[i].head_hex() == self.crumples[j]
    }

    /// Snake `i` meets food `j`: on the same hex the snake grows by one
    /// segment and one new piece of food is placed; otherwise nothing happens.
    pub open spec fn bite(self, i: int, j: int) -> GameModel {
        if self.overlaps(i, j) {
            GameModel {
                snakes: self.snakes.update(i, self.snakes[i].grow()),
                ..self
            }.spawn_crumple()
        } else {
            self
        }
    }

    /// Snake `i` meets, in order, the first `upto` pieces of food.
    pub open spec fn graze(self, i: int, upto: int) -> GameModel
        decreases upto,
    {
        if upto <= 0 {
            self
        } else {
            self.graze(i, upto - 1).bite(i, upto - 1)
        }
    }

    /// The first `upto` snakes meet, in order, the first `food` pieces of food.
    pub open spec fn feed(self, upto: int, food: int) -> GameModel
        decreases upto,
    {
        if upto <= 0 {
            self
        } else {
            self.feed(upto - 1, food).graze(upto - 1, food)
        }
    }

    /// Whether some head lies on hex `c`.
    pub open spec fn eaten(self, c: Hex) -> bool {
        exists|i: int| 0 <= i < self.snakes.len() && (#[trigger] self.snakes[i]).head_hex() == c
    }

    /// Of the first `upto` pieces of food, those that stay on the map: a
    /// piece among the first `old_food` stays unless a head lies on it, and
    /// a later piece always stays.
    pub open spec fn leftovers(self, upto: int, old_food: int) -> Seq<Hex>
        decreases upto,
    {
        if upto <= 0 {
            Seq::empty()
        } else {
            let rest = self.leftovers(upto - 1, old_food);
            let c = self.crumples[upto - 1];
            if upto - 1 < old_food && self.eaten(c) {
                rest
            } else {
                rest.push(c)
            }
        }
    }

    /// The game with the eaten pieces among the first `old_food` taken away.
    pub open spec fn clear(self, old_food: int) -> GameModel {
        GameModel { crumples: self.leftovers(self.crumples.len() as int, old_food), ..self }
    }

    /// The game after collisions are resolved: every head meets every piece
    /// of food that lay on the map when the tick began, snake by snake and
    /// piece by piece; then the pieces that a head lies on are taken away.
    pub open spec fn collide(self) -> GameModel {
        self.feed(self.snakes.len() as int, self.crumples.len() as int).clear(
            self.crumples.len() as int,
        )
    }

    /// The game after one tick: steering, then motion, then collisions.
    pub open spec fn step(self, inputs: Seq<u8>, delta: u64) -> GameModel {
        self.steer_all(inputs).advance_all(delta).collide()
    }
}

/// Steering keeps the game well formed and moves no head.
pub proof fn lemma_steer_all_keeps_wf(g: GameModel, inputs: Seq<u8>)
    requires
        g.wf(),
    ensures
        g.steer_all(inputs).wf(),
        g.movable() ==> g.steer_all(inputs).movable(),
        forall|delta: u64| g.tickable(delta) ==> g.steer_all(inputs).tickable(delta),
        forall|i: int|
            0 <= i < g.snakes.len() ==> (#[trigger] g.steer_all(inputs).snakes[i]).head_hex()
                == g.snakes[i].head_hex(),
{
    let t = g.steer_all(inputs);
    assert forall|i: int| 0 <= i < t.snakes.len() implies (#[trigger] t.snakes[i]).wf()
        && t.snakes[i].head_hex() == g.snakes[i].head_hex() by {
        assert(g.snakes[i].wf());
        lemma_steer_keeps_wf(g.snakes[i], inputs[g.snakes[i].player.handle as int]);
    }
    assert forall|delta: u64| g.tickable(delta) implies t.tickable(delta) by {
        assert forall|i: int| 0 <= i < t.snakes.len() implies (#[trigger] t.snakes[i]).cooldown.ticks_within(
            delta,
        ) by {
            assert(g.snakes[i].cooldown.ticks_within(delta));
        }
    }
    if g.movable() {
        assert forall|i: int| 0 <= i < t.snakes.len() implies (#[trigger] t.snakes[i]).head_hex().interior() by {
            assert(g.snakes[i].head_hex().interior());
        }
    }
}

impl Game {
    /// An empty map of the given half-width, with the generator that will
    /// place its food.
    pub fn new(rng: Pcg32RandomT, world_size: WorldSize) -> (g: Game)
        ensures
            g@ == (GameModel {
                snakes: Seq::empty(),
                crumples: Seq::empty(),
                rng: rng@,
                world_size: world_size.0,
            }),
            world_size.0 > 0 ==> g@.wf(),
    {
        let g = Game { snakes: Vec::new(), crumples: Vec::new(), rng, world_size };
        assert(g@.snakes =~= Seq::empty());
        assert(g@.crumples =~= Seq::empty());
        g
    }

    /// Starts a session: seeds the generator with `seed`, puts both snakes
    /// on the map and places the first piece of food.
    pub fn start(seed: u64, world_size: WorldSize) -> (g: Game)
        requires
            world_size.0 > 0,
        ensures
            g@ == GameModel::started(seed, world_size.0),
            g@.wf(),
            g@.snakes.len() == 2,
            g@.crumples.len() == 1,
    {
        let mut g = Game::new(Pcg32RandomT::new(seed, SESSION_SEQUENCE), world_size);
        g.spawn_snake();
        assert(g@.snakes =~= seq![
            SnakeModel::fresh(0, Hex { q: -2i64, r: 0 }, MOVEMENT_PERIOD),
            SnakeModel::fresh(1, Hex { q: 2, r: 0 }, MOVEMENT_PERIOD),
        ]);
        g.spawn_crumple();
        g
    }

    /// Whether the state is well formed: every snake is, and the map has a
    /// width.
    pub fn is_wf(&self) -> (b: bool)
        ensures
            b == self@.wf(),
    {
        if self.world_size.0 == 0 {
            return false;
        }
        let n = self.snakes.len();
        let mut i: usize = 0;
        while i < n
            invariant
                n == self.snakes@.len(),
                i <= n,
                forall|k: int| 0 <= k < i ==> (#[trigger] self@.snakes[k]).wf(),
            decreases n - i,
        {
            if !self.snakes[i].is_wf() {
                assert(self@.snakes[i as int] == self.snakes@[i as int]@);
                return false;
            }
            i += 1;
        }
        true
    }

    /// A copy of the whole state, for a rollback to return to.
    pub fn snapshot(&self) -> (copy: Game)
        ensures
            copy@ == self@,
    {
        let mut snakes: Vec<Snake> = Vec::new();
        let n = self.snakes.len();
        let mut i: usize = 0;
        while i < n
            invariant
                n == self.snakes@.len(),
                i <= n,
                snakes@.len() == i,
                forall|k: int| 0 <= k < i ==> (#[trigger] snakes@[k])@ == self.snakes@[k]@,
            decreases n - i,
        {
            snakes.push(self.snakes[i].snapshot());
            i += 1;
        }
        let mut crumples: Vec<Crumple> = Vec::new();
        let m = self.crumples.len();
        let mut j: usize = 0;
        while j < m
            invariant
                m == self.crumples@.len(),
                j <= m,
                crumples@ == self.crumples@.take(j as int),
            decreases m - j,
        {
            crumples.push(self.crumples[j]);
            assert(crumples@ =~= self.crumples@.take(j + 1));
            j += 1;
        }
        assert(crumples@ =~= self.crumples@);
        let copy = Game { snakes, crumples, rng: self.rng, world_size: self.world_size };
        assert(copy@.snakes =~= self@.snakes);
        assert(copy@.crumples =~= self@.crumples);
        copy
    }

    /// Returns to a checkpoint: the state becomes a copy of `saved`.
    pub fn restore(&mut self, saved: &Game)
        ensures
            final(self)@ == saved@,
    {
        *self = saved.snapshot();
    }

    /// Puts the two snakes on the map: player 0 at `(-2, 0)` and player 1 at
    /// `(2, 0)`, each one segment long.
    pub fn spawn_snake(&mut self)
        ensures
            final(self)@ == (GameModel {
                snakes: old(self)@.snakes.push(
                    SnakeModel::fresh(0, Hex { q: -2i64, r: 0 }, MOVEMENT_PERIOD),
                ).push(SnakeModel::fresh(1, Hex { q: 2, r: 0 }, MOVEMENT_PERIOD)),
                ..old(self)@
            }),
            old(self)@.wf() ==> final(self)@.wf(),
    {
        self.snakes.push(Snake::new(0, Hex { q: -2i64, r: 0 }, MOVEMENT_PERIOD));
        self.snakes.push(Snake::new(1, Hex { q: 2, r: 0 }, MOVEMENT_PERIOD));
        assert(self@.snakes =~= old(self)@.snakes.push(
            SnakeModel::fresh(0, Hex { q: -2i64, r: 0 }, MOVEMENT_PERIOD),
        ).push(SnakeModel::fresh(1, Hex { q: 2, r: 0 }, MOVEMENT_PERIOD)));
        assert(self@.crumples =~= old(self)@.crumples);
    }

    /// Whether a tick of `delta` can run on these inputs: there is a symbol
    /// for every player, every head has room to step, and every cooldown can
    /// count the tick.
    pub fn can_step(&self, inputs: &Vec<u8>, delta: u64) -> (b: bool)
        requires
            self@.wf(),
        ensures
            b == (self@.steerable(inputs@) && self@.movable() && self@.tickable(delta)),
    {
        let n = self.snakes.len();
        let mut i: usize = 0;
        while i < n
            invariant
                n == self.snakes@.len(),
                i <= n,
                self@.wf(),
                forall|k: int| 0 <= k < i ==> (#[trigger] self@.snakes[k]).player.handle < inputs@.len(),
                forall|k: int| 0 <= k < i ==> (#[trigger] self@.snakes[k]).head_hex().interior(),
                forall|k: int| 0 <= k < i ==> (#[trigger] self@.snakes[k]).cooldown.ticks_within(delta),
            decreases n - i,
        {
            assert(self@.snakes[i as int].wf());
            if self.snakes[i].player.handle >= inputs.len() || !self.snakes[i].head_hex().is_interior()
                || !self.snakes[i].cooldown.can_tick(delta) {
                assert(self@.snakes[i as int] == self.snakes@[i as int]@);
                return false;
            }
            i += 1;
        }
        true
    }

    /// Steers every snake by the symbol of its player.
    pub fn action_system(&mut self, inputs: &Vec<u8>)
        requires
            old(self)@.steerable(inputs@),
        ensures
            final(self)@ == old(self)@.steer_all(inputs@),
            old(self)@.wf() ==> final(self)@.wf(),
            old(self)@.movable() ==> final(self)@.movable(),
            forall|delta: u64| old(self)@.tickable(delta) ==> final(self)@.tickable(delta),
    {
        let n = self.snakes.len();
        let mut i: usize = 0;
        while i < n
            invariant
                n == old(self)@.snakes.len(),
                self@.snakes.len() == n,
                i <= n,
                old(self)@.steerable(inputs@),
                self@.crumples == old(self)@.crumples,
                self@.rng == old(self)@.rng,
                self@.world_size == old(self)@.world_size,
                forall|k: int| 0 <= k < i ==> #[trigger] self@.snakes[k] == old(self)@.steer_all(inputs@).snakes[k],
                forall|k: int| i <= k < n ==> #[trigger] self@.snakes[k] == old(self)@.snakes[k],
            decreases n - i,
        {
            let ghost before = self@;
            assert(before.snakes[i as int] == old(self)@.snakes[i as int]);
            let symbol = inputs[self.snakes[i].player.handle];
            self.snakes[i].steer(symbol);
            assert(self@.snakes =~= before.snakes.update(
                i as int,
                before.snakes[i as int].steer(symbol),
            ));
            i += 1;
        }
        assert(self@.snakes =~= old(self)@.steer_all(inputs@).snakes);
        proof {
            if old(self)@.wf() {
                lemma_steer_all_keeps_wf(old(self)@, inputs@);
            }
        }
    }

    /// Ticks every snake's cooldown and moves those whose period completed.
    pub fn head_movement(&mut self, delta: u64)
        requires
            old(self)@.wf(),
            old(self)@.movable(),
            old(self)@.tickable(delta),
        ensures
            final(self)@ == old(self)@.advance_all(delta),
            final(self)@.wf(),
    {
        let n = self.snakes.len();
        let mut i: usize = 0;
        while i < n
            invariant
                n == old(self)@.snakes.len(),
                self@.snakes.len() == n,
                i <= n,
                old(self)@.wf(),
                old(self)@.movable(),
                old(self)@.tickable(delta),
                self@.crumples == old(self)@.crumples,
                self@.rng == old(self)@.rng,
                self@.world_size == old(self)@.world_size,
                forall|k: int| 0 <= k < i ==> #[trigger] self@.snakes[k] == old(self)@.advance_all(delta).snakes[k],
                forall|k: int| 0 <= k < i ==> (#[trigger] self@.snakes[k]).wf(),
                forall|k: int| i <= k < n ==> #[trigger] self@.snakes[k] == old(self)@.snakes[k],
            decreases n - i,
        {
            let ghost before = self@;
            assert(before.snakes[i as int] == old(self)@.snakes[i as int]);
            assert(old(self)@.snakes[i as int].wf());
            assert(old(self)@.snakes[i as int].cooldown.ticks_within(delta));
            self.snakes[i].head_movement(delta);
            assert(self@.snakes =~= before.snakes.update(
                i as int,
                before.snakes[i as int].advance(delta),
            ));
            i += 1;
        }
        assert(self@.snakes =~= old(self)@.advance_all(delta).snakes);
    }

    /// Places one piece of food at coordinates drawn from the generator.
    pub fn spawn_crumple(&mut self)
        requires
            old(self)@.world_size > 0,
        ensures
            final(self)@ == old(self)@.spawn_crumple(),
    {
        let q = self.rng.bounded_rand(self.world_size.0);
        let r = self.rng.bounded_rand(self.world_size.0);
        self.crumples.push(Crumple { hex: Hex { q: q as i64, r: r as i64 } });
        assert(self@.crumples =~= old(self)@.spawn_crumple().crumples);
        assert(self@.snakes =~= old(self)@.snakes);
    }

    /// Whether some head lies on `hex`.
    pub fn any_head_at(&self, hex: Hex) -> (b: bool)
        requires
            self@.wf(),
        ensures
            b == self@.eaten(hex),
    {
        let n = self.snakes.len();
        let mut i: usize = 0;
        while i < n
            invariant
                n == self.snakes@.len(),
                i <= n,
                self@.wf(),
                forall|k: int| 0 <= k < i ==> (#[trigger] self@.snakes[k]).head_hex() != hex,
            decreases n - i,
        {
            assert(self@.snakes[i as int].wf());
            if self.snakes[i].head_hex() == hex {
                return true;
            }
            i += 1;
        }
        false
    }

    /// Takes away every piece of food among the first `old_food` that a
    /// head lies on. The order of the pieces that stay is kept.
    pub fn clear(&mut self, old_food: usize)
        requires
            old(self)@.wf(),
        ensures
            final(self)@ == old(self)@.clear(old_food as int),
    {
        let n = self.crumples.len();
        let mut kept: Vec<Crumple> = Vec::new();
        let mut j: usize = 0;
        while j < n
            invariant
                n == self.crumples@.len(),
                j <= n,
                self@.wf(),
                self@ == old(self)@,
                Seq::new(kept@.len(), |k: int| kept@[k].hex) == self@.leftovers(j as int, old_food as int),
            decreases n - j,
        {
            let c = self.crumples[j];
            let ghost before = Seq::new(kept@.len(), |k: int| kept@[k].hex);
            if j < old_food && self.any_head_at(c.hex) {
            } else {
                kept.push(c);
                assert(Seq::new(kept@.len(), |k: int| kept@[k].hex) =~= before.push(c.hex));
            }
            j += 1;
        }
        self.crumples = kept;
        assert(self@.crumples =~= old(self)@.leftovers(n as int, old_food as int));
        assert(self@.snakes =~= old(self)@.snakes);
    }

    /// Resolves the collisions of one tick. A head on the hex of a piece of
    /// food eats it: the snake grows by one segment behind its tail and one
    /// new piece is placed. Every head is tested against every piece that
    /// lay on the map when the tick began, so two heads on one piece both
    /// grow and both have a new piece placed.
    pub fn head_crumple_collision(&mut self)
        requires
            old(self)@.wf(),
        ensures
            final(self)@ == old(self)@.collide(),
            final(self)@.wf(),
    {
        let food = self.crumples.len();
        let n = self.snakes.len();
        let mut i: usize = 0;
        while i < n
            invariant
                n == old(self)@.snakes.len(),
                food == old(self)@.crumples.len(),
                self@.snakes.len() == n,
                self@.crumples.len() >= food,
                i <= n,
                self@.wf(),
                self@ == old(self)@.feed(i as int, food as int),
            decreases n - i,
        {
            let ghost fed = self@;
            let mut j: usize = 0;
            while j < food
                invariant
                    self@.snakes.len() == n,
                    self@.crumples.len() >= food,
                    i < n,
                    j <= food,
                    self@.wf(),
                    self@ == fed.graze(i as int, j as int),
                decreases food - j,
            {
                let ghost grazed = self@;
                assert(self@.snakes[i as int].wf());
                if self.snakes[i].head_hex() == self.crumples[j].hex {
                    self.snakes[i].grow();
                    assert(self@.snakes =~= grazed.snakes.update(
                        i as int,
                        grazed.snakes[i as int].grow(),
                    ));
                    assert(self@.crumples =~= grazed.crumples);
                    self.spawn_crumple();
                }
                j += 1;
            }
            i += 1;
        }
        self.clear(food);
    }

    /// Runs one tick: steers every snake by its player's symbol, advances
    /// every cooldown by `delta` and moves the snakes whose period completed,
    /// then resolves collisions.
    pub fn step(&mut self, inputs: &Vec<u8>, delta: u64)
        requires
            old(self)@.wf(),
            old(self)@.steerable(inputs@),
            old(self)@.movable(),
            old(self)@.tickable(delta),
        ensures
            final(self)@ == old(self)@.step(inputs@, delta),
            final(self)@.wf(),
    {
        self.action_system(inputs);
        self.head_movement(delta);
        self.head_crumple_collision();
    }
}

} // verus!
