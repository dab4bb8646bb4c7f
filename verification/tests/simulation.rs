use hex_snake::chain::{Snake, UpdateFollower};
use hex_snake::components::{
    Body, Crumple, Direction, Follower, Following, Head, Hex, HexHistory, MovementCooldown, Tail,
    WorldSize,
};
use hex_snake::game::{Game, MOVEMENT_PERIOD};
use hex_snake::input::{INPUT_DOWN_LEFT, INPUT_DOWN_RIGHT, INPUT_LEFT, INPUT_RIGHT, INPUT_UP_LEFT, INPUT_UP_RIGHT};
use hex_snake::rng::Pcg32RandomT;

const MS: u64 = 1_000_000;

fn hex(q: i64, r: i64) -> Hex {
    Hex { q, r }
}

fn positions(s: &Snake) -> Vec<Hex> {
    s.segments.iter().map(|seg| seg.hex).collect()
}

fn new_game(seed: u64) -> Game {
    let mut g = Game::new(Pcg32RandomT::new(seed, 1), WorldSize(4));
    g.spawn_snake();
    g
}

#[test]
fn hex_steps_follow_the_axial_deltas() {
    let h = hex(3, -7);
    assert_eq!(h.step(Direction::UpRight), hex(4, -8));
    assert_eq!(h.step(Direction::Right), hex(4, -7));
    assert_eq!(h.step(Direction::DownRight), hex(3, -6));
    assert_eq!(h.step(Direction::DownLeft), hex(2, -6));
    assert_eq!(h.step(Direction::Left), hex(2, -7));
    assert_eq!(h.step(Direction::UpLeft), hex(3, -8));
    assert_eq!(h.step(Direction::Neutral), hex(3, -7));
}

#[test]
fn hex_interior_excludes_the_rim() {
    assert!(hex(0, 0).is_interior());
    assert!(hex(i64::MAX - 1, i64::MIN + 1).is_interior());
    assert!(!hex(i64::MAX, 0).is_interior());
    assert!(!hex(0, i64::MIN).is_interior());
}

#[test]
fn cooldown_finishes_once_per_period() {
    let mut c = MovementCooldown::new(750);
    assert_eq!(c, MovementCooldown { duration: 750, elapsed: 0, finished: false });
    c.tick(749);
    assert!(!c.finished());
    assert_eq!(c.elapsed, 749);
    c.tick(1);
    assert!(c.finished());
    assert_eq!(c.elapsed, 0);
    c.tick(100);
    assert!(!c.finished());
    assert_eq!(c.elapsed, 100);
    c.tick(700);
    assert!(c.finished());
    assert_eq!(c.elapsed, 50);
}

#[test]
fn cooldown_long_tick_finishes_once_and_keeps_the_remainder() {
    let mut c = MovementCooldown::new(750);
    c.tick(2000);
    assert!(c.finished());
    assert_eq!(c.elapsed, 500);
    let mut c = MovementCooldown { duration: u64::MAX, elapsed: u64::MAX - 1, finished: false };
    assert!(c.can_tick(u64::MAX));
    c.tick(u64::MAX);
    assert!(c.finished());
    assert_eq!(c.elapsed, u64::MAX - 1);
}

#[test]
fn cooldown_counts_at_most_u32_max_periods_in_a_tick() {
    let c = MovementCooldown::new(1);
    assert!(c.can_tick(u32::MAX as u64));
    assert!(!c.can_tick(u32::MAX as u64 + 1));
    let mut c = MovementCooldown::new(3);
    assert!(c.can_tick(3 * (u32::MAX as u64) + 2));
    assert!(!c.can_tick(3 * (u32::MAX as u64) + 3));
    c.tick(3 * (u32::MAX as u64) + 2);
    assert!(c.finished());
    assert_eq!(c.elapsed, 2);
    let c = MovementCooldown::new(750_000_000);
    assert!(c.can_tick(16_666_667));
    assert!(!c.can_tick(u64::MAX));
}

#[test]
fn fresh_snake_is_one_segment() {
    let s = Snake::new(1, hex(2, 0), 750);
    assert_eq!(s.player.handle, 1);
    assert_eq!(s.head.direction, Direction::Neutral);
    assert_eq!(s.head.last_direction, Direction::Neutral);
    assert_eq!(s.body.0, vec![0]);
    assert_eq!(s.segments.len(), 1);
    assert_eq!(s.segments[0].hex, hex(2, 0));
    assert!(s.segments[0].history.0.is_empty());
    assert_eq!(s.segments[0].following, None);
    assert_eq!(s.segments[0].follower, None);
    assert_eq!(s.segments[0].tail, Some(Tail));
    assert_eq!(s.head_hex(), hex(2, 0));
}

#[test]
fn right_inputs_advance_one_hex_per_period() {
    let mut s = Snake::new(0, hex(-2, 0), 750 * MS);
    let mut seen = Vec::new();
    for _ in 0..9 {
        s.steer(INPUT_RIGHT);
        s.head_movement(250 * MS);
        seen.push(s.head_hex().q);
    }
    assert_eq!(seen, vec![-2, -2, -1, -1, -1, 0, 0, 0, 1]);
    assert_eq!(s.head_hex(), hex(1, 0));
    assert_eq!(s.segments[0].history.0, vec![hex(-2, 0), hex(-1, 0), hex(0, 0)]);
    assert_eq!(s.head.last_direction, Direction::Right);
}

#[test]
fn sixty_ticks_a_second_make_three_steps_in_2250_ms() {
    let mut s = Snake::new(0, hex(-2, 0), MOVEMENT_PERIOD);
    for _ in 0..135 {
        s.steer(INPUT_RIGHT);
        s.head_movement(16_666_667);
    }
    assert_eq!(s.head_hex(), hex(1, 0));
}

#[test]
fn neutral_snake_records_history_without_moving() {
    let mut s = Snake::new(0, hex(-2, 0), 750);
    s.head_movement(750);
    assert_eq!(s.head_hex(), hex(-2, 0));
    assert_eq!(s.segments[0].history.0, vec![hex(-2, 0)]);
}

#[test]
fn a_turn_takes_effect_at_the_next_completed_period() {
    let mut s = Snake::new(0, hex(0, 0), 750);
    s.steer(INPUT_RIGHT);
    s.head_movement(750);
    assert_eq!(s.head_hex(), hex(1, 0));
    s.steer(INPUT_DOWN_LEFT);
    assert_eq!(s.head.direction, Direction::DownLeft);
    assert_eq!(s.head.last_direction, Direction::Right);
    s.head_movement(500);
    assert_eq!(s.head_hex(), hex(1, 0));
    assert_eq!(s.head.last_direction, Direction::Right);
    s.head_movement(250);
    assert_eq!(s.head_hex(), hex(0, 1));
    assert_eq!(s.head.last_direction, Direction::DownLeft);
}

#[test]
fn steering_by_each_symbol() {
    let mut s = Snake::new(0, hex(0, 0), 750);
    for (symbol, d) in [
        (INPUT_UP_RIGHT, Direction::UpRight),
        (INPUT_RIGHT, Direction::Right),
        (INPUT_DOWN_RIGHT, Direction::DownRight),
        (INPUT_DOWN_LEFT, Direction::DownLeft),
        (INPUT_LEFT, Direction::Left),
        (INPUT_UP_LEFT, Direction::UpLeft),
    ] {
        s.steer(symbol);
        assert_eq!(s.head.direction, d);
        s.steer(0);
        assert_eq!(s.head.direction, d);
        s.steer(0b11);
        assert_eq!(s.head.direction, d);
    }
}

#[test]
fn growth_appends_one_segment_on_the_tail_hex() {
    let mut s = Snake::new(0, hex(-2, 0), 750);
    s.steer(INPUT_RIGHT);
    s.head_movement(750);
    s.grow();
    assert_eq!(s.body.0, vec![0, 1]);
    assert_eq!(s.segments.len(), 2);
    assert_eq!(s.segments[1].hex, hex(-1, 0));
    assert!(s.segments[1].history.0.is_empty());
    assert_eq!(s.segments[0].follower, Some(Follower(1)));
    assert_eq!(s.segments[0].following, None);
    assert_eq!(s.segments[0].tail, None);
    assert_eq!(s.segments[1].following, Some(Following(0)));
    assert_eq!(s.segments[1].follower, None);
    assert_eq!(s.segments[1].tail, Some(Tail));
    assert_eq!(s.head_hex(), hex(-1, 0));

    s.grow();
    assert_eq!(s.body.0, vec![0, 1, 2]);
    assert_eq!(s.segments[2].hex, hex(-1, 0));
    assert_eq!(s.segments[1].follower, Some(Follower(2)));
    assert_eq!(s.segments[1].tail, None);
    assert_eq!(s.segments[2].following, Some(Following(1)));
    assert_eq!(s.segments[2].tail, Some(Tail));
    let tails = s.segments.iter().filter(|seg| seg.tail.is_some()).count();
    assert_eq!(tails, 1);
}

#[test]
fn spawn_segment_and_update_body_are_the_two_halves_of_growth() {
    let mut s = Snake::new(0, hex(5, 5), 750);
    let id = s.spawn_segment(0);
    assert_eq!(id, 1);
    assert_eq!(s.segments.len(), 2);
    assert_eq!(s.body.0, vec![0]);
    s.update_body(id);
    assert_eq!(s.body.0, vec![0, 1]);
}

#[test]
fn update_follower_hands_on_the_place_just_left() {
    let mut s = Snake::new(0, hex(0, 0), 750);
    s.grow();
    s.steer(INPUT_RIGHT);
    s.head_movement(750);
    assert_eq!(
        s.update_follower(0),
        Some(UpdateFollower { entity: 1, hex: hex(0, 0) })
    );
    assert_eq!(s.update_follower(1), None);
}

#[test]
fn on_update_follower_moves_and_records() {
    let mut s = Snake::new(0, hex(0, 0), 750);
    s.grow();
    s.on_update_follower(UpdateFollower { entity: 1, hex: hex(4, -1) });
    assert_eq!(s.segments[1].hex, hex(4, -1));
    assert_eq!(s.segments[1].history.0, vec![hex(0, 0)]);
    assert_eq!(s.segments[0].hex, hex(0, 0));
    assert!(s.segments[0].history.0.is_empty());
}

#[test]
fn segments_trail_the_head_one_move_behind_each() {
    let mut s = Snake::new(0, hex(0, 0), 750);
    let turns = [
        INPUT_RIGHT,
        INPUT_RIGHT,
        INPUT_DOWN_RIGHT,
        INPUT_DOWN_LEFT,
        INPUT_LEFT,
        INPUT_UP_LEFT,
        INPUT_UP_RIGHT,
        INPUT_RIGHT,
    ];
    s.grow();
    s.grow();
    let mut head_path = vec![s.head_hex()];
    for t in turns {
        s.steer(t);
        s.head_movement(750);
        head_path.push(s.head_hex());
        let moves = head_path.len() - 1;
        for k in 0..s.segments.len() {
            if moves >= k {
                assert_eq!(s.segments[k].hex, head_path[moves - k]);
            }
        }
    }
    assert_eq!(
        positions(&s),
        vec![hex(2, 0), hex(1, 0), hex(0, 1)]
    );
    assert_eq!(s.segments[2].history.0.len(), 8);
}

#[test]
fn a_fresh_segment_waits_one_move_on_the_tail_hex() {
    let mut s = Snake::new(0, hex(0, 0), 750);
    s.steer(INPUT_RIGHT);
    s.head_movement(750);
    s.head_movement(750);
    s.grow();
    assert_eq!(positions(&s), vec![hex(2, 0), hex(2, 0)]);
    s.head_movement(750);
    assert_eq!(positions(&s), vec![hex(3, 0), hex(2, 0)]);
    s.grow();
    assert_eq!(positions(&s), vec![hex(3, 0), hex(2, 0), hex(2, 0)]);
    s.head_movement(750);
    assert_eq!(positions(&s), vec![hex(4, 0), hex(3, 0), hex(2, 0)]);
    s.head_movement(750);
    assert_eq!(positions(&s), vec![hex(5, 0), hex(4, 0), hex(3, 0)]);
}

#[test]
fn spawn_snake_places_both_players() {
    let g = new_game(1);
    assert_eq!(g.snakes.len(), 2);
    assert_eq!(g.snakes[0].player.handle, 0);
    assert_eq!(g.snakes[1].player.handle, 1);
    assert_eq!(g.snakes[0].head_hex(), hex(-2, 0));
    assert_eq!(g.snakes[1].head_hex(), hex(2, 0));
    assert_eq!(g.snakes[0].cooldown, MovementCooldown { duration: 750 * MS, elapsed: 0, finished: false });
    assert!(g.crumples.is_empty());
    assert_eq!(g.rng.parts(), (1, 3));
    assert_eq!(g.world_size, WorldSize(4));
}

#[test]
fn spawn_crumple_draws_q_then_r() {
    let mut g = new_game(1);
    g.spawn_crumple();
    g.spawn_crumple();
    g.spawn_crumple();
    assert_eq!(
        g.crumples,
        vec![
            Crumple { hex: hex(0, 3) },
            Crumple { hex: hex(2, 0) },
            Crumple { hex: hex(2, 2) }
        ]
    );
    assert_eq!(g.rng.parts(), (9357938776257019591, 3));
}

#[test]
fn action_system_reads_each_players_symbol() {
    let mut g = new_game(1);
    g.action_system(&vec![INPUT_LEFT, INPUT_UP_RIGHT]);
    assert_eq!(g.snakes[0].head.direction, Direction::Left);
    assert_eq!(g.snakes[1].head.direction, Direction::UpRight);
    g.action_system(&vec![0, 77]);
    assert_eq!(g.snakes[0].head.direction, Direction::Left);
    assert_eq!(g.snakes[1].head.direction, Direction::UpRight);
}

#[test]
fn can_step_wants_a_symbol_per_player_and_room_to_move() {
    let mut g = new_game(1);
    assert!(g.can_step(&vec![0, 0], 16 * MS));
    assert!(!g.can_step(&vec![0], 16 * MS));
    assert!(!g.can_step(&vec![], 16 * MS));
    assert!(!g.can_step(&vec![0, 0], u64::MAX));
    g.snakes[1].segments[0].hex = hex(i64::MAX, 0);
    assert!(!g.can_step(&vec![0, 0], 16 * MS));
}

#[test]
fn no_overlap_means_no_growth_and_no_respawn() {
    let mut g = new_game(1);
    g.crumples.push(Crumple { hex: hex(0, 0) });
    let rng = g.rng.parts();
    g.head_crumple_collision();
    assert_eq!(g.crumples, vec![Crumple { hex: hex(0, 0) }]);
    assert_eq!(g.snakes[0].body.0, vec![0]);
    assert_eq!(g.snakes[1].body.0, vec![0]);
    assert_eq!(g.rng.parts(), rng);
}

#[test]
fn a_head_on_food_grows_once_and_food_respawns_once() {
    let mut g = new_game(1);
    g.crumples.push(Crumple { hex: hex(-2, 0) });
    g.head_crumple_collision();
    assert_eq!(g.snakes[0].body.0, vec![0, 1]);
    assert_eq!(g.snakes[0].segments[1].hex, hex(-2, 0));
    assert_eq!(g.snakes[1].body.0, vec![0]);
    assert_eq!(g.crumples, vec![Crumple { hex: hex(0, 3) }]);
}

#[test]
fn any_head_at_finds_heads_only() {
    let mut g = new_game(1);
    g.snakes[0].grow();
    g.action_system(&vec![INPUT_RIGHT, 0]);
    g.head_movement(MOVEMENT_PERIOD);
    assert!(g.any_head_at(hex(-1, 0)));
    assert!(g.any_head_at(hex(2, 0)));
    assert!(!g.any_head_at(hex(-2, 0)));
}

#[test]
fn clear_keeps_later_food_and_order() {
    let mut g = new_game(1);
    for h in [hex(1, 1), hex(-2, 0), hex(2, 0), hex(3, 3), hex(2, 0)] {
        g.crumples.push(Crumple { hex: h });
    }
    g.clear(3);
    assert_eq!(
        g.crumples,
        vec![
            Crumple { hex: hex(1, 1) },
            Crumple { hex: hex(3, 3) },
            Crumple { hex: hex(2, 0) }
        ]
    );
}

#[test]
fn two_heads_on_one_food_both_grow_and_both_respawn() {
    let mut g = new_game(1);
    g.snakes[1].segments[0].hex = hex(-2, 0);
    g.crumples.push(Crumple { hex: hex(-2, 0) });
    g.head_crumple_collision();
    assert_eq!(g.snakes[0].body.0, vec![0, 1]);
    assert_eq!(g.snakes[1].body.0, vec![0, 1]);
    assert_eq!(
        g.crumples,
        vec![Crumple { hex: hex(0, 3) }, Crumple { hex: hex(2, 0) }]
    );
}

#[test]
fn a_tick_steers_moves_and_eats() {
    let mut g = new_game(1);
    g.crumples.push(Crumple { hex: hex(-1, 0) });
    let inputs = vec![INPUT_RIGHT, INPUT_LEFT];
    g.step(&inputs, 500 * MS);
    assert_eq!(g.snakes[0].head_hex(), hex(-2, 0));
    assert_eq!(g.snakes[0].head.direction, Direction::Right);
    assert_eq!(g.snakes[0].head.last_direction, Direction::Neutral);
    g.step(&inputs, 250 * MS);
    assert_eq!(g.snakes[0].head_hex(), hex(-1, 0));
    assert_eq!(g.snakes[1].head_hex(), hex(1, 0));
    assert_eq!(g.snakes[0].body.0, vec![0, 1]);
    assert_eq!(g.snakes[0].segments[1].hex, hex(-1, 0));
    assert_eq!(g.snakes[1].body.0, vec![0]);
    assert_eq!(g.crumples, vec![Crumple { hex: hex(0, 3) }]);
    g.step(&inputs, 750 * MS);
    assert_eq!(positions(&g.snakes[0]), vec![hex(0, 0), hex(-1, 0)]);
    assert_eq!(positions(&g.snakes[1]), vec![hex(0, 0)]);
}

fn replay(seed: u64, script: &[(u8, u8)]) -> Game {
    let mut g = new_game(seed);
    g.spawn_crumple();
    for &(a, b) in script {
        let inputs = vec![a, b];
        assert!(g.can_step(&inputs, 16_666_667));
        g.step(&inputs, 16_666_667);
    }
    g
}

fn snapshot(g: &Game) -> (Vec<Vec<Hex>>, Vec<Vec<usize>>, Vec<Crumple>, (u64, u64)) {
    (
        g.snakes.iter().map(positions).collect(),
        g.snakes.iter().map(|s| s.body.0.clone()).collect(),
        g.crumples.clone(),
        g.rng.parts(),
    )
}

#[test]
fn replaying_the_same_inputs_gives_the_same_snapshot() {
    let mut script = Vec::new();
    // Food lies at (0, 3): player 0 walks right twice, then down-right three times.
    for i in 0..600u32 {
        let a = if i < 90 { INPUT_RIGHT } else { INPUT_DOWN_RIGHT };
        let b = if i % 100 < 50 { INPUT_LEFT } else { INPUT_UP_LEFT };
        script.push((a, b));
    }
    let first = replay(1, &script);
    let second = replay(1, &script);
    assert_eq!(snapshot(&first), snapshot(&second));
    assert_eq!(first.snakes[0].body.0.len(), 2);
    let other = replay(2022, &script);
    assert_ne!(snapshot(&first).3, snapshot(&other).3);
}

#[test]
fn snapshot_and_restore_resume_the_same_run() {
    let mut script = Vec::new();
    for i in 0..400u32 {
        let a = if i < 90 { INPUT_RIGHT } else { INPUT_DOWN_RIGHT };
        script.push((a, INPUT_LEFT));
    }
    let straight = replay(1, &script);

    let mut g = replay(1, &script[..150]);
    let saved = g.snapshot();
    assert_eq!(snapshot(&saved), snapshot(&g));
    // A mispredicted stretch, then the rollback.
    for _ in 0..100 {
        g.step(&vec![INPUT_UP_LEFT, INPUT_UP_RIGHT], 16_666_667);
    }
    assert_ne!(snapshot(&saved), snapshot(&g));
    g.restore(&saved);
    assert_eq!(snapshot(&saved), snapshot(&g));
    assert_eq!(g.snakes[0].cooldown, saved.snakes[0].cooldown);
    assert_eq!(g.snakes[0].head, saved.snakes[0].head);
    for &(a, b) in &script[150..] {
        g.step(&vec![a, b], 16_666_667);
    }
    assert_eq!(snapshot(&g), snapshot(&straight));
    assert_eq!(g.snakes[0].segments[0].history.0, straight.snakes[0].segments[0].history.0);
}

#[test]
fn snake_snapshot_copies_every_segment() {
    let mut s = Snake::new(0, hex(0, 0), 750);
    s.grow();
    s.steer(INPUT_RIGHT);
    s.head_movement(750);
    let copy = s.snapshot();
    assert_eq!(positions(&copy), positions(&s));
    assert_eq!(copy.body.0, s.body.0);
    assert_eq!(copy.segments[1].history.0, vec![hex(0, 0)]);
    assert_eq!(copy.segments[1].following, Some(Following(0)));
    assert_eq!(copy.segments[0].follower, Some(Follower(1)));
    assert_eq!(copy.segments[1].tail, Some(Tail));
    assert_eq!(copy.head, s.head);
    assert_eq!(copy.cooldown, s.cooldown);
    assert_eq!(copy.player, s.player);
}

#[test]
fn defaults_are_empty_and_neutral() {
    assert_eq!(Hex::default(), hex(0, 0));
    assert_eq!(
        Head::default(),
        Head { direction: Direction::Neutral, last_direction: Direction::Neutral }
    );
    assert!(Body::default().0.is_empty());
    assert!(HexHistory::default().0.is_empty());
    assert_eq!(Pcg32RandomT::default().parts(), (0, 0));
    let mut g = Pcg32RandomT::default();
    assert_eq!(g.pcg32_random_r(), 0);
    assert_eq!(g.parts(), (0, 0));
}

#[test]
fn a_snake_stays_well_formed_through_moves_and_growth() {
    let mut s = Snake::new(0, hex(0, 0), 750);
    assert!(s.is_wf());
    for (i, t) in [INPUT_RIGHT, INPUT_DOWN_RIGHT, INPUT_LEFT, INPUT_UP_LEFT, INPUT_UP_RIGHT]
        .into_iter()
        .cycle()
        .take(40)
        .enumerate()
    {
        s.steer(t);
        s.head_movement(400);
        if i % 7 == 0 {
            s.grow();
        }
        if i % 11 == 0 {
            s.grow();
            s.grow();
        }
        assert!(s.is_chained());
        assert!(s.is_wf());
    }
    assert_eq!(s.segments.len(), 1 + 6 + 8);
}

#[test]
fn a_broken_link_is_not_a_chain() {
    let mut s = Snake::new(0, hex(0, 0), 750);
    s.grow();
    s.grow();
    assert!(s.is_chained());
    s.segments[1].follower = Some(Follower(0));
    assert!(!s.is_chained());
    assert!(!s.is_wf());
    s.segments[1].follower = Some(Follower(2));
    assert!(s.is_chained());
    s.segments[1].tail = Some(Tail);
    assert!(!s.is_chained());
    s.segments[1].tail = None;
    s.segments[2].following = None;
    assert!(!s.is_chained());
    s.segments[2].following = Some(Following(1));
    s.body.0[2] = 1;
    assert!(!s.is_chained());
    s.body.0[2] = 2;
    s.body.0.push(3);
    assert!(!s.is_chained());
    s.body.0.pop();
    assert!(s.is_wf());
    s.segments.clear();
    s.body.0.clear();
    assert!(!s.is_chained());
}

#[test]
fn a_segment_off_the_path_ahead_does_not_trail() {
    let mut s = Snake::new(0, hex(0, 0), 750);
    s.grow();
    s.steer(INPUT_RIGHT);
    s.head_movement(750);
    s.head_movement(750);
    assert!(s.is_trailing_at(1));
    s.segments[1].hex = hex(9, 9);
    assert!(!s.is_trailing_at(1));
    assert!(!s.is_wf());
    s.segments[1].hex = hex(1, 0);
    assert!(s.is_wf());
    s.segments[1].history.0[0] = hex(5, 5);
    assert!(!s.is_trailing_at(1));
    s.segments[1].history.0[0] = hex(0, 0);
    s.segments[1].history.0.push(hex(1, 0));
    assert!(!s.is_trailing_at(1));
}

#[test]
fn a_cooldown_outside_its_period_is_not_well_formed() {
    let mut s = Snake::new(0, hex(0, 0), 750);
    s.cooldown.elapsed = 750;
    assert!(!s.is_wf());
    s.cooldown.elapsed = 749;
    assert!(s.is_wf());
    s.cooldown.duration = 0;
    s.cooldown.elapsed = 0;
    assert!(!s.is_wf());
}

#[test]
fn a_game_is_well_formed_when_its_snakes_are_and_the_map_has_a_width() {
    let mut g = new_game(1);
    assert!(g.is_wf());
    g.spawn_crumple();
    for _ in 0..200 {
        g.step(&vec![INPUT_RIGHT, INPUT_DOWN_LEFT], 16_666_667);
    }
    assert!(g.is_wf());
    g.world_size = WorldSize(0);
    assert!(!g.is_wf());
    g.world_size = WorldSize(4);
    g.snakes[1].segments[0].tail = None;
    assert!(!g.is_wf());
    let empty = Game::new(Pcg32RandomT::new(1, 1), WorldSize(1));
    assert!(empty.is_wf());
}

#[test]
fn segment_paths_end_at_the_current_hex() {
    let mut s = Snake::new(0, hex(0, 0), 750);
    s.steer(INPUT_RIGHT);
    s.head_movement(750);
    s.head_movement(750);
    assert_eq!(s.segments[0].path_at(0), hex(0, 0));
    assert_eq!(s.segments[0].path_at(1), hex(1, 0));
    assert_eq!(s.segments[0].path_at(2), hex(2, 0));
    assert!(s.segments[0].is_linked_at(0, 1));
    assert!(!s.segments[0].is_linked_at(0, 2));
}

#[test]
fn a_lone_head_sends_no_update() {
    let s = Snake::new(0, hex(0, 0), 750);
    assert_eq!(s.update_follower(0), None);
}

#[test]
fn follow_runs_a_move_down_the_whole_chain() {
    let mut s = Snake::new(0, hex(0, 0), 750);
    s.grow();
    s.grow();
    s.grow();
    // The head steps by hand; the rest catches up.
    s.segments[0].history.0.push(hex(0, 0));
    s.segments[0].hex = hex(0, -1);
    s.follow();
    assert_eq!(positions(&s), vec![hex(0, -1), hex(0, 0), hex(0, 0), hex(0, 0)]);
    s.segments[0].history.0.push(hex(0, -1));
    s.segments[0].hex = hex(1, -2);
    s.follow();
    assert_eq!(positions(&s), vec![hex(1, -2), hex(0, -1), hex(0, 0), hex(0, 0)]);
    s.segments[0].history.0.push(hex(1, -2));
    s.segments[0].hex = hex(2, -2);
    s.follow();
    assert_eq!(positions(&s), vec![hex(2, -2), hex(1, -2), hex(0, -1), hex(0, 0)]);
    for k in 1..4 {
        assert_eq!(s.segments[k].history.0.len(), 3);
    }
    assert_eq!(s.segments[3].history.0, vec![hex(0, 0), hex(0, 0), hex(0, 0)]);
    assert!(s.is_wf());
}

#[test]
fn a_session_starts_with_two_snakes_and_one_piece_of_food() {
    let g = Game::start(1, WorldSize(4));
    assert!(g.is_wf());
    assert_eq!(g.snakes.len(), 2);
    assert_eq!(g.snakes[0].player.handle, 0);
    assert_eq!(g.snakes[1].player.handle, 1);
    assert_eq!(positions(&g.snakes[0]), vec![hex(-2, 0)]);
    assert_eq!(positions(&g.snakes[1]), vec![hex(2, 0)]);
    assert_eq!(g.snakes[0].cooldown, MovementCooldown::new(MOVEMENT_PERIOD));
    assert_eq!(g.crumples, vec![Crumple { hex: hex(0, 3) }]);
    assert_eq!(g.world_size, WorldSize(4));
    assert_eq!(g.rng.parts().1, 3);

    let mut by_hand = new_game(1);
    by_hand.spawn_crumple();
    assert_eq!(snapshot(&g), snapshot(&by_hand));

    let other = Game::start(2022, WorldSize(4));
    assert_ne!(other.rng.parts(), g.rng.parts());
    let narrow = Game::start(1, WorldSize(1));
    assert_eq!(narrow.crumples, vec![Crumple { hex: hex(0, 0) }]);
}
