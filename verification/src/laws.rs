//! What holds of the simulation as a whole: replay, cadence of motion, and
//! the outcome of collisions.

use vstd::prelude::*;
use vstd::arithmetic::div_mod::{
    lemma_fundamental_div_mod, lemma_fundamental_div_mod_converse, lemma_mod_bound,
};
use crate::chain::{
    lemma_advance_keeps_wf, lemma_grow_keeps_chain, lemma_grow_keeps_trail, lemma_steer_keeps_wf,
    SnakeModel,
};
use crate::components::Direction;
use crate::game::GameModel;
use crate::input::named_direction;

verus! {

impl SnakeModel {
    /// The snake after `ticks` ticks of `delta` time units each, with the
    /// same symbol arriving at every tick.
    pub open spec fn cruise(self, symbol: u8, delta: u64, ticks: nat) -> SnakeModel
        decreases ticks,
    {
        if ticks == 0 {
            self
        } else {
            self.cruise(symbol, delta, (ticks - 1) as nat).steer(symbol).advance(delta)
        }
    }
}

impl SnakeModel {
    /// The snake after the ticks of `script`, each entry the symbol that
    /// arrives at a tick and the tick's length.
    pub open spec fn driven(self, script: Seq<(u8, u64)>) -> SnakeModel
        decreases script.len(),
    {
        if script.len() == 0 {
            self
        } else {
            self.driven(script.drop_last()).steer(script.last().0).advance(script.last().1)
        }
    }
}

/// Two snakes that start alike and are given the same symbols and the same
/// tick lengths are alike after every tick: position, history, facing, last
/// applied direction and cooldown phase. Nothing but these arguments, and
/// no clock, has a say.
pub proof fn lemma_same_ticks_same_snake(a: SnakeModel, b: SnakeModel, script: Seq<(u8, u64)>)
    requires
        a == b,
    ensures
        forall|n: int| 0 <= n <= script.len() ==> a.driven(#[trigger] script.take(n)) == b.driven(script.take(n)),
        a.driven(script) == b.driven(script),
{
}

/// Splitting `total + delta` by `period`, given the split of `total`: the
/// quotient goes up by one exactly when the remainder and `delta` together
/// reach the period.
proof fn lemma_next_period(total: int, delta: int, period: int)
    requires
        0 <= total,
        0 <= delta <= period,
        0 < period,
    ensures
        (total + delta) / period == total / period + if total % period + delta >= period {
            1int
        } else {
            0int
        },
        (total + delta) % period == (total % period + delta) % period,
{
    let q = total / period;
    let r = total % period;
    lemma_fundamental_div_mod(total, period);
    lemma_mod_bound(total, period);
    if r + delta >= period {
        assert(total + delta == (q + 1) * period + (r + delta - period)) by (nonlinear_arith)
            requires
                total == period * q + r,
        ;
        lemma_fundamental_div_mod_converse(total + delta, period, q + 1, r + delta - period);
        lemma_fundamental_div_mod_converse(r + delta, period, 1, r + delta - period);
    } else {
        assert(total + delta == q * period + (r + delta)) by (nonlinear_arith)
            requires
                total == period * q + r,
        ;
        lemma_fundamental_div_mod_converse(total + delta, period, q, r + delta);
        lemma_fundamental_div_mod_converse(r + delta, period, 0, r + delta);
    }
}

/// A snake that is given the symbol of one direction at every tick advances
/// its head by exactly one hex in that direction each time a cooldown period
/// completes, and by none in between: after any number of ticks, none longer
/// than the period, the head has made as many steps as periods have
/// completed since the snake's cooldown last started over.
pub proof fn lemma_one_hex_per_period(
    s: SnakeModel,
    symbol: u8,
    d: Direction,
    delta: u64,
    ticks: nat,
)
    requires
        s.wf(),
        named_direction(symbol) == Some(d),
        delta <= s.cooldown.duration,
        i64::MIN + ticks <= s.head_hex().q <= i64::MAX - ticks,
        i64::MIN + ticks <= s.head_hex().r <= i64::MAX - ticks,
    ensures
        ({
            let total = s.cooldown.elapsed + ticks * delta;
            let steps = total / (s.cooldown.duration as int);
            let end = s.cruise(symbol, delta, ticks);
            &&& end.wf()
            &&& end.body == s.body
            &&& end.cooldown.duration == s.cooldown.duration
            &&& end.cooldown.elapsed == total % (s.cooldown.duration as int)
            &&& 0 <= steps <= ticks
            &&& end.head_hex().q == s.head_hex().q + steps * d.dq()
            &&& end.head_hex().r == s.head_hex().r + steps * d.dr()
        }),
    decreases ticks,
{
    let period = s.cooldown.duration as int;
    if ticks == 0 {
        assert(s.cooldown.elapsed + 0 * delta == s.cooldown.elapsed);
        lemma_fundamental_div_mod_converse(s.cooldown.elapsed as int, period, 0, s.cooldown.elapsed as int);
    } else {
        let before = (ticks - 1) as nat;
        lemma_one_hex_per_period(s, symbol, d, delta, before);
        let p = s.cruise(symbol, delta, before);
        let t = p.steer(symbol);
        lemma_steer_keeps_wf(p, symbol);
        lemma_advance_keeps_wf(t, delta);
        let end = t.advance(delta);
        assert(end == s.cruise(symbol, delta, ticks));
        let total_before = s.cooldown.elapsed + before * delta;
        let total = s.cooldown.elapsed + ticks * delta;
        assert(total == total_before + delta) by (nonlinear_arith)
            requires
                total == s.cooldown.elapsed + ticks * delta,
                total_before == s.cooldown.elapsed + before * delta,
                before == ticks - 1,
        ;
        assert(0 <= total_before) by (nonlinear_arith)
            requires
                total_before == s.cooldown.elapsed + before * delta,
                0 <= before,
                0 <= delta,
                0 <= s.cooldown.elapsed,
        ;
        lemma_next_period(total_before, delta as int, period);
        let steps_before = total_before / period;
        let steps = total / period;
        assert(steps_before * d.dq() + d.dq() == (steps_before + 1) * d.dq()) by (nonlinear_arith);
        assert(steps_before * d.dr() + d.dr() == (steps_before + 1) * d.dr()) by (nonlinear_arith);
        assert(-steps_before <= steps_before * d.dq() <= steps_before) by (nonlinear_arith)
            requires
                0 <= steps_before,
                -1 <= d.dq() <= 1,
        ;
        assert(-steps_before <= steps_before * d.dr() <= steps_before) by (nonlinear_arith)
            requires
                0 <= steps_before,
                -1 <= d.dr() <= 1,
        ;
    }
}

impl GameModel {
    /// The game after the ticks of `script`, one entry of symbols per tick,
    /// each tick `delta` time units long.
    pub open spec fn run(self, script: Seq<Seq<u8>>, delta: u64) -> GameModel
        decreases script.len(),
    {
        if script.len() == 0 {
            self
        } else {
            self.run(script.drop_last(), delta).step(script.last(), delta)
        }
    }
}

/// Two runs of the same script from the same snapshot end in the same
/// snapshot: positions, body lists, food and generator state alike.
pub proof fn lemma_same_script_same_snapshot(
    a: GameModel,
    b: GameModel,
    script: Seq<Seq<u8>>,
    delta: u64,
)
    requires
        a == b,
    ensures
        a.run(script, delta) == b.run(script, delta),
{
}

/// Running a script in one go, or stopping after a part of it, taking a
/// snapshot and running the rest from there, ends in the same snapshot.
pub proof fn lemma_replay_from_snapshot(
    g: GameModel,
    before: Seq<Seq<u8>>,
    after: Seq<Seq<u8>>,
    delta: u64,
)
    ensures
        g.run(before + after, delta) == g.run(before, delta).run(after, delta),
    decreases after.len(),
{
    if after.len() == 0 {
        assert(before + after =~= before);
    } else {
        assert((before + after).drop_last() =~= before + after.drop_last());
        assert((before + after).last() == after.last());
        lemma_replay_from_snapshot(g, before, after.drop_last(), delta);
    }
}

/// A head that does not lie on a piece of food neither grows nor has food
/// placed: the meeting leaves the game as it was.
pub proof fn lemma_miss_changes_nothing(g: GameModel, i: int, j: int)
    requires
        !g.overlaps(i, j),
    ensures
        g.bite(i, j) == g,
{
}

/// A head that lies on a piece of food grows its snake by exactly one
/// segment, placed on the former tail's hex, and has exactly one new piece
/// of food placed. No other snake changes and no head moves.
pub proof fn lemma_hit_grows_and_respawns_once(g: GameModel, i: int, j: int)
    requires
        g.wf(),
        0 <= i < g.snakes.len(),
        0 <= j < g.crumples.len(),
        g.snakes[i].segments.len() < usize::MAX,
        g.overlaps(i, j),
    ensures
        g.bite(i, j).wf(),
        g.bite(i, j).snakes.len() == g.snakes.len(),
        g.bite(i, j).snakes[i] == g.snakes[i].grow(),
        g.bite(i, j).snakes[i].body.len() == g.snakes[i].body.len() + 1,
        g.bite(i, j).snakes[i].segments.last().hex == g.snakes[i].segments.last().hex,
        g.bite(i, j).snakes[i].head_hex() == g.snakes[i].head_hex(),
        forall|k: int|
            0 <= k < g.snakes.len() && k != i ==> #[trigger] g.bite(i, j).snakes[k] == g.snakes[k],
        g.bite(i, j).crumples.len() == g.crumples.len() + 1,
        g.bite(i, j).crumples.drop_last() == g.crumples,
        g.bite(i, j).crumples.last() == g.spawn_crumple().crumples.last(),
        g.bite(i, j).rng == g.spawn_crumple().rng,
{
    let h = g.bite(i, j);
    assert(g.snakes[i].wf());
    lemma_grow_keeps_chain(g.snakes[i]);
    lemma_grow_keeps_trail(g.snakes[i]);
    assert forall|k: int| 0 <= k < h.snakes.len() implies (#[trigger] h.snakes[k]).wf() by {
        if k != i {
            assert(g.snakes[k].wf());
        }
    }
    assert(h.crumples.drop_last() =~= g.crumples);
}

/// Snake `i` lies on none of the first `upto` pieces of food.
pub open spec fn misses(g: GameModel, i: int, upto: int) -> bool {
    forall|j: int| 0 <= j < upto ==> !#[trigger] g.overlaps(i, j)
}

proof fn lemma_graze_without_overlap(g: GameModel, i: int, upto: int)
    requires
        misses(g, i, upto),
    ensures
        g.graze(i, upto) == g,
    decreases upto,
{
    if upto > 0 {
        lemma_graze_without_overlap(g, i, upto - 1);
        assert(!g.overlaps(i, upto - 1));
    }
}

proof fn lemma_feed_without_overlap(g: GameModel, upto: int, food: int)
    requires
        forall|i: int| 0 <= i < upto ==> #[trigger] misses(g, i, food),
    ensures
        g.feed(upto, food) == g,
    decreases upto,
{
    if upto > 0 {
        lemma_feed_without_overlap(g, upto - 1, food);
        assert(misses(g, upto - 1, food));
        lemma_graze_without_overlap(g, upto - 1, food);
    }
}

proof fn lemma_leftovers_without_overlap(g: GameModel, upto: int, old_food: int)
    requires
        0 <= upto <= g.crumples.len(),
        forall|i: int| 0 <= i < g.snakes.len() ==> #[trigger] misses(g, i, g.crumples.len() as int),
    ensures
        g.leftovers(upto, old_food) == g.crumples.take(upto),
    decreases upto,
{
    if upto > 0 {
        lemma_leftovers_without_overlap(g, upto - 1, old_food);
        let c = g.crumples[upto - 1];
        if g.eaten(c) {
            let i = choose|i: int| 0 <= i < g.snakes.len() && (#[trigger] g.snakes[i]).head_hex() == c;
            assert(misses(g, i, g.crumples.len() as int));
            assert(g.overlaps(i, upto - 1));
        }
        assert(g.crumples.take(upto) =~= g.crumples.take(upto - 1).push(c));
    } else {
        assert(g.crumples.take(upto) =~= Seq::empty());
    }
}

/// When no head lies on any piece of food, resolving collisions changes
/// nothing: no snake grows, no food is taken away and none is placed, and
/// the generator is not drawn from.
pub proof fn lemma_collide_without_overlap(g: GameModel)
    requires
        forall|i: int| 0 <= i < g.snakes.len() ==> #[trigger] misses(g, i, g.crumples.len() as int),
    ensures
        g.collide() == g,
{
    lemma_feed_without_overlap(g, g.snakes.len() as int, g.crumples.len() as int);
    lemma_leftovers_without_overlap(g, g.crumples.len() as int, g.crumples.len() as int);
    assert(g.crumples.take(g.crumples.len() as int) =~= g.crumples);
}

/// Whether `later` is `earlier` with entries appended at its end, if any.
pub open spec fn appended<A>(later: Seq<A>, earlier: Seq<A>) -> bool {
    &&& earlier.len() <= later.len()
    &&& forall|j: int| 0 <= j < earlier.len() ==> #[trigger] later[j] == earlier[j]
}

/// Whether snake `later` can come from snake `earlier` by appending only:
/// its body list, its list of segments and every segment's history hold
/// what they held, with entries added at the end, if any.
pub open spec fn snake_appended(later: SnakeModel, earlier: SnakeModel) -> bool {
    &&& appended(later.body, earlier.body)
    &&& earlier.segments.len() <= later.segments.len()
    &&& forall|k: int|
        0 <= k < earlier.segments.len() ==> appended(
            (#[trigger] later.segments[k]).history,
            earlier.segments[k].history,
        )
}

/// Whether every snake of `later` comes from the same snake of `earlier` by
/// appending only.
pub open spec fn game_appended(later: GameModel, earlier: GameModel) -> bool {
    &&& later.snakes.len() == earlier.snakes.len()
    &&& forall|i: int|
        0 <= i < earlier.snakes.len() ==> snake_appended(#[trigger] later.snakes[i], earlier.snakes[i])
}

proof fn lemma_appended_chain(a: GameModel, b: GameModel, c: GameModel)
    requires
        game_appended(b, a),
        game_appended(c, b),
    ensures
        game_appended(c, a),
{
    assert forall|i: int| 0 <= i < a.snakes.len() implies snake_appended(
        #[trigger] c.snakes[i],
        a.snakes[i],
    ) by {
        assert(snake_appended(b.snakes[i], a.snakes[i]));
        assert(snake_appended(c.snakes[i], b.snakes[i]));
        assert forall|k: int| 0 <= k < a.snakes[i].segments.len() implies appended(
            (#[trigger] c.snakes[i].segments[k]).history,
            a.snakes[i].segments[k].history,
        ) by {
            assert(appended(b.snakes[i].segments[k].history, a.snakes[i].segments[k].history));
            assert(appended(c.snakes[i].segments[k].history, b.snakes[i].segments[k].history));
        }
    }
}

proof fn lemma_bite_appends(g: GameModel, i: int, j: int)
    requires
        0 <= i < g.snakes.len(),
        g.snakes[i].segments.len() >= 1,
    ensures
        game_appended(g.bite(i, j), g),
        g.bite(i, j).snakes[i].segments.len() >= 1,
{
    let h = g.bite(i, j);
    assert forall|k: int| 0 <= k < g.snakes.len() implies snake_appended(
        #[trigger] h.snakes[k],
        g.snakes[k],
    ) by {
        assert forall|m: int| 0 <= m < g.snakes[k].segments.len() implies appended(
            (#[trigger] h.snakes[k].segments[m]).history,
            g.snakes[k].segments[m].history,
        ) by {}
    }
}

proof fn lemma_graze_appends(g: GameModel, i: int, upto: int)
    requires
        0 <= i < g.snakes.len(),
        g.snakes[i].segments.len() >= 1,
    ensures
        game_appended(g.graze(i, upto), g),
        g.graze(i, upto).snakes[i].segments.len() >= 1,
    decreases upto,
{
    if upto > 0 {
        lemma_graze_appends(g, i, upto - 1);
        let p = g.graze(i, upto - 1);
        lemma_bite_appends(p, i, upto - 1);
        lemma_appended_chain(g, p, p.bite(i, upto - 1));
    } else {
        lemma_appended_self(g);
    }
}

proof fn lemma_appended_self(g: GameModel)
    ensures
        game_appended(g, g),
{
    assert forall|i: int| 0 <= i < g.snakes.len() implies snake_appended(
        #[trigger] g.snakes[i],
        g.snakes[i],
    ) by {
        assert forall|k: int| 0 <= k < g.snakes[i].segments.len() implies appended(
            (#[trigger] g.snakes[i].segments[k]).history,
            g.snakes[i].segments[k].history,
        ) by {}
    }
}

proof fn lemma_feed_appends(g: GameModel, upto: int, food: int)
    requires
        0 <= upto <= g.snakes.len(),
        forall|i: int| 0 <= i < g.snakes.len() ==> (#[trigger] g.snakes[i]).segments.len() >= 1,
    ensures
        game_appended(g.feed(upto, food), g),
    decreases upto,
{
    if upto > 0 {
        lemma_feed_appends(g, upto - 1, food);
        let p = g.feed(upto - 1, food);
        assert(snake_appended(p.snakes[upto - 1], g.snakes[upto - 1]));
        lemma_graze_appends(p, upto - 1, food);
        lemma_appended_chain(g, p, p.graze(upto - 1, food));
    } else {
        lemma_appended_self(g);
    }
}

/// A tick only ever appends: no snake appears or goes, every body list
/// keeps its entries in place and may gain some at its end, no segment goes,
/// and every history keeps its entries and may gain one at its end. The
/// first entry of every body list stays the head's own segment.
pub proof fn lemma_step_only_appends(g: GameModel, inputs: Seq<u8>, delta: u64)
    requires
        g.wf(),
    ensures
        game_appended(g.step(inputs, delta), g),
        forall|i: int| 0 <= i < g.snakes.len() ==> (#[trigger] g.step(inputs, delta).snakes[i]).body[0] == 0,
{
    let steered = g.steer_all(inputs);
    let advanced = steered.advance_all(delta);
    assert forall|i: int| 0 <= i < g.snakes.len() implies snake_appended(
        #[trigger] advanced.snakes[i],
        g.snakes[i],
    ) && advanced.snakes[i].segments.len() >= 1 by {
        assert(g.snakes[i].wf());
        let s = g.snakes[i];
        let a = advanced.snakes[i];
        assert(a == s.steer(inputs[s.player.handle as int]).advance(delta));
        assert forall|k: int| 0 <= k < s.segments.len() implies appended(
            (#[trigger] a.segments[k]).history,
            s.segments[k].history,
        ) by {}
    }
    let fed = advanced.feed(advanced.snakes.len() as int, advanced.crumples.len() as int);
    lemma_feed_appends(advanced, advanced.snakes.len() as int, advanced.crumples.len() as int);
    let end = g.step(inputs, delta);
    assert(end.snakes == fed.snakes);
    assert forall|i: int| 0 <= i < g.snakes.len() implies snake_appended(
        #[trigger] end.snakes[i],
        g.snakes[i],
    ) && end.snakes[i].body[0] == 0 by {
        assert(snake_appended(fed.snakes[i], advanced.snakes[i]));
        assert(snake_appended(advanced.snakes[i], g.snakes[i]));
        assert(g.snakes[i].wf());
        assert(g.snakes[i].body[0] == 0);
        assert forall|k: int| 0 <= k < g.snakes[i].segments.len() implies appended(
            (#[trigger] end.snakes[i].segments[k]).history,
            g.snakes[i].segments[k].history,
        ) by {
            assert(appended(advanced.snakes[i].segments[k].history, g.snakes[i].segments[k].history));
            assert(appended(fed.snakes[i].segments[k].history, advanced.snakes[i].segments[k].history));
        }
    }
}

/// How many of the first `upto` snakes have their head on the first piece
/// of food.
pub open spec fn heads_on_food(g: GameModel, upto: int) -> nat
    decreases upto,
{
    if upto <= 0 {
        0
    } else {
        heads_on_food(g, upto - 1) + if g.overlaps(upto - 1, 0) {
            1nat
        } else {
            0nat
        }
    }
}

proof fn lemma_heads_on_food(g: GameModel, upto: int)
    requires
        0 <= upto <= g.snakes.len(),
    ensures
        heads_on_food(g, upto) <= upto,
        heads_on_food(g, upto) > 0 <==> exists|k: int| 0 <= k < upto && #[trigger] g.overlaps(k, 0),
    decreases upto,
{
    if upto > 0 {
        lemma_heads_on_food(g, upto - 1);
        if heads_on_food(g, upto) > 0 {
            if g.overlaps(upto - 1, 0) {
            } else {
                let k = choose|k: int| 0 <= k < upto - 1 && #[trigger] g.overlaps(k, 0);
                assert(g.overlaps(k, 0));
            }
        }
    }
}

proof fn lemma_feed_single_food(g: GameModel, upto: int)
    requires
        g.wf(),
        g.crumples.len() == 1,
        0 <= upto <= g.snakes.len(),
    ensures
        g.feed(upto, 1).snakes.len() == g.snakes.len(),
        g.feed(upto, 1).crumples.len() == 1 + heads_on_food(g, upto),
        g.feed(upto, 1).crumples[0] == g.crumples[0],
        forall|k: int|
            0 <= k < g.snakes.len() ==> #[trigger] g.feed(upto, 1).snakes[k] == if k < upto
                && g.overlaps(k, 0) {
                g.snakes[k].grow()
            } else {
                g.snakes[k]
            },
    decreases upto,
{
    if upto > 0 {
        lemma_feed_single_food(g, upto - 1);
        let p = g.feed(upto - 1, 1);
        assert(p.graze(upto - 1, 0) == p);
        assert(p.graze(upto - 1, 1) == p.graze(upto - 1, 0).bite(upto - 1, 0));
        assert(g.feed(upto, 1) == p.bite(upto - 1, 0));
        assert(p.snakes[upto - 1] == g.snakes[upto - 1]);
        assert(p.overlaps(upto - 1, 0) == g.overlaps(upto - 1, 0));
    }
}

proof fn lemma_leftovers_single_food(h: GameModel, upto: int)
    requires
        1 <= upto <= h.crumples.len(),
    ensures
        h.leftovers(upto, 1).len() == if h.eaten(h.crumples[0]) {
            upto - 1
        } else {
            upto
        },
    decreases upto,
{
    if upto > 1 {
        lemma_leftovers_single_food(h, upto - 1);
    } else {
        assert(h.leftovers(0, 1).len() == 0);
    }
}

/// With one piece of food on the map, resolving collisions grows every
/// snake whose head lies on it by exactly one segment and no other snake,
/// and places exactly one new piece for each such head in place of the one
/// eaten. With no head on it the piece stays and nothing is placed.
pub proof fn lemma_one_growth_and_one_respawn_per_head(g: GameModel)
    requires
        g.wf(),
        g.crumples.len() == 1,
    ensures
        g.collide().snakes.len() == g.snakes.len(),
        forall|k: int|
            0 <= k < g.snakes.len() ==> (#[trigger] g.collide().snakes[k]).body.len()
                == g.snakes[k].body.len() + if g.overlaps(k, 0) {
                1int
            } else {
                0int
            },
        forall|k: int|
            0 <= k < g.snakes.len() ==> (#[trigger] g.collide().snakes[k]).head_hex()
                == g.snakes[k].head_hex(),
        g.collide().crumples.len() == if heads_on_food(g, g.snakes.len() as int) == 0 {
            1
        } else {
            heads_on_food(g, g.snakes.len() as int)
        },
        heads_on_food(g, g.snakes.len() as int) == 0 ==> g.collide() == g,
{
    let n = g.snakes.len() as int;
    let h = g.feed(n, 1);
    lemma_feed_single_food(g, n);
    lemma_heads_on_food(g, n);
    assert forall|k: int| 0 <= k < n implies (#[trigger] h.snakes[k]).head_hex()
        == g.snakes[k].head_hex() && h.snakes[k].body.len() == g.snakes[k].body.len() + if g.overlaps(
        k,
        0,
    ) {
        1int
    } else {
        0int
    } by {
        assert(g.snakes[k].wf());
    }
    lemma_leftovers_single_food(h, h.crumples.len() as int);
    if h.eaten(h.crumples[0]) {
        let i = choose|i: int| 0 <= i < h.snakes.len() && (#[trigger] h.snakes[i]).head_hex() == h.crumples[0];
        assert(g.overlaps(i, 0));
    }
    if heads_on_food(g, n) > 0 {
        let k = choose|k: int| 0 <= k < n && #[trigger] g.overlaps(k, 0);
        assert(h.snakes[k].head_hex() == h.crumples[0]);
        assert(h.eaten(h.crumples[0]));
    } else {
        assert forall|i: int| 0 <= i < g.snakes.len() implies #[trigger] misses(g, i, 1) by {
            assert forall|j: int| 0 <= j < 1 implies !#[trigger] g.overlaps(i, j) by {
                if g.overlaps(i, 0) {
                    assert(heads_on_food(g, n) > 0);
                }
            }
        }
        lemma_collide_without_overlap(g);
    }
}

} // verus!
