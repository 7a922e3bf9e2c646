use bastroblasto::geom::Vec2;
use bastroblasto::state::{
    GameState, Phase, Rock, Shot, FORWARD_SCALE, INITIAL_LAST_SHOT, SHOT_SPEED, SHOT_TTL_MS,
    TAU_URAD,
};
use bastroblasto::tick::{TickEvents, TickInputs};

const W: i64 = 800_000_000;
const H: i64 = 600_000_000;

/// A well-formed state with no rocks left alive would be mid-transition;
/// instead park the wave as "level 1, three killed" with two far-away rocks
/// so every invariant holds and nothing interferes with the scenario.
fn quiet_state() -> GameState {
    let mut g = GameState::new(W, H);
    g.rocks = vec![
        Rock { pos: Vec2 { x: -350_000_000, y: -250_000_000 }, vel: Vec2 { x: 0, y: 0 } },
        Rock { pos: Vec2 { x: 350_000_000, y: 250_000_000 }, vel: Vec2 { x: 0, y: 0 } },
    ];
    g.shots = Vec::new();
    g.level = 1;
    g.kills = 3;
    g.score = 3;
    g
}

#[test]
fn firing_within_the_cooldown_window_spawns_once() {
    let mut g = quiet_state();
    let forward = Vec2 { x: 0, y: FORWARD_SCALE };
    assert!(g.try_fire(true, forward, 0));
    assert_eq!(g.shots.len(), 1);
    assert_eq!(g.ship.last_shot, 0);
    // a second press inside the 500 ms window is suppressed
    assert!(!g.try_fire(true, forward, 400));
    assert_eq!(g.shots.len(), 1);
    // exactly at the window edge it is still suppressed (strict inequality)
    assert!(!g.try_fire(true, forward, 500));
    assert_eq!(g.shots.len(), 1);
    // after the window elapses a second projectile spawns
    assert!(g.try_fire(true, forward, 501));
    assert_eq!(g.shots.len(), 2);
    assert_eq!(g.ship.last_shot, 501);
}

#[test]
fn a_spawned_shot_inherits_ship_momentum() {
    let mut g = quiet_state();
    g.ship.vel = Vec2 { x: 30_000, y: -40_000 };
    let forward = Vec2 { x: 0, y: FORWARD_SCALE };
    assert!(g.try_fire(true, forward, 7));
    let s = g.shots[0];
    assert_eq!(s.vel.x, 30_000);
    assert_eq!(s.vel.y, SHOT_SPEED - 40_000);
    assert_eq!(s.pos, g.ship.pos);
    assert_eq!(s.angle, g.ship.angle);
    assert_eq!(s.ttl, SHOT_TTL_MS);
}

#[test]
fn an_unpressed_trigger_never_fires() {
    let mut g = quiet_state();
    assert!(!g.try_fire(false, Vec2 { x: 0, y: FORWARD_SCALE }, 1_000));
    assert_eq!(g.shots.len(), 0);
    assert_eq!(g.ship.last_shot, INITIAL_LAST_SHOT);
}

#[test]
fn positions_integrate_and_wrap() {
    let mut g = quiet_state();
    g.ship.vel = Vec2 { x: 1_000, y: -2_000 };
    g.update_positions(100);
    assert_eq!(g.ship.pos, Vec2 { x: 100_000, y: -200_000 });

    let mut far = quiet_state();
    far.ship.pos = Vec2 { x: 399_000_000, y: 0 };
    far.ship.vel = Vec2 { x: 250_000, y: 0 };
    far.update_positions(100);
    // 399 000 000 + 25 000 000 wraps past the right edge
    assert_eq!(far.ship.pos.x, 424_000_000 - W);
}

#[test]
fn thrust_accelerates_exactly_and_clamps_at_top_speed() {
    let mut g = quiet_state();
    let forward = Vec2 { x: FORWARD_SCALE, y: 0 };
    g.thrust_ship(true, forward, 16);
    // 100 upx/ms^2 * 16 ms = 1600 upx/ms, no rounding loss
    assert_eq!(g.ship.vel, Vec2 { x: 1_600, y: 0 });
    g.ship.vel = Vec2 { x: 250_000, y: 0 };
    g.thrust_ship(true, forward, 1_000);
    // 250 000 + 100 000 exceeds the cap and is rescaled back onto it
    assert_eq!(g.ship.vel, Vec2 { x: 250_000, y: 0 });
    let v = g.ship.vel;
    assert!(v.x as i128 * v.x as i128 + v.y as i128 * v.y as i128 <= 250_000i128 * 250_000);
}

#[test]
fn turning_is_exact_and_stays_normalized() {
    let mut g = quiet_state();
    g.turn_ship(true, false, 100);
    assert_eq!(g.ship.angle, 300_000);
    g.turn_ship(false, true, 100);
    assert_eq!(g.ship.angle, 0);
    g.turn_ship(false, true, 100);
    assert_eq!(g.ship.angle, TAU_URAD - 300_000);
    g.turn_ship(true, true, 50);
    assert_eq!(g.ship.angle, TAU_URAD - 300_000);
}

#[test]
fn shots_spin_at_their_fixed_rate() {
    let mut g = quiet_state();
    assert!(g.try_fire(true, Vec2 { x: 0, y: FORWARD_SCALE }, 0));
    g.update_spinner_spin(10);
    assert_eq!(g.shots[0].angle, 1_000);
    assert_eq!(g.ship.angle, 0);
}

#[test]
fn a_projectile_expires_in_the_tick_its_countdown_ends() {
    let mut g = quiet_state();
    assert!(g.try_fire(true, Vec2 { x: 0, y: FORWARD_SCALE }, 0));
    g.update_shot_ttl(1_999);
    assert_eq!(g.shots.len(), 1);
    assert_eq!(g.shots[0].ttl, 1);
    g.update_shot_ttl(1);
    // the countdown would reach zero: destroyed now, not one tick later
    assert_eq!(g.shots.len(), 0);
}

#[test]
fn rock_pair_swaps_normal_velocity_components_and_separates() {
    let mut g = quiet_state();
    g.rocks = vec![
        Rock { pos: Vec2 { x: 1_000_000, y: 0 }, vel: Vec2 { x: 10_000, y: 3_000 } },
        Rock { pos: Vec2 { x: 0, y: 0 }, vel: Vec2 { x: -5_000, y: 700 } },
    ];
    g.rock_rock_collision();
    // the contact normal is the x axis: x components swap, y components stay
    assert_eq!(g.rocks[0].vel, Vec2 { x: -5_000, y: 3_000 });
    assert_eq!(g.rocks[1].vel, Vec2 { x: 10_000, y: 700 });
    // separation pushes the centers at least SEPARATION_DIST apart
    assert_eq!(g.rocks[0].pos, Vec2 { x: 14_000_000, y: 0 });
    assert_eq!(g.rocks[1].pos, Vec2 { x: -13_000_000, y: 0 });
}

#[test]
fn distant_rocks_do_not_bounce() {
    let mut g = quiet_state();
    let before = (g.rocks[0], g.rocks[1]);
    g.rock_rock_collision();
    assert_eq!(g.rocks[0], before.0);
    assert_eq!(g.rocks[1], before.1);
}

#[test]
fn ship_rock_overlap_is_terminal() {
    let mut g = quiet_state();
    g.rocks[0] = Rock { pos: g.ship.pos, vel: Vec2 { x: 0, y: 0 } };
    g.player_rock_collision();
    assert_eq!(g.phase, Phase::Defeated);
}

#[test]
fn a_tick_detects_a_fatal_overlap() {
    let mut g = quiet_state();
    g.rocks[0] = Rock { pos: g.ship.pos, vel: Vec2 { x: 0, y: 0 } };
    let ev = g.tick(
        TickInputs { turn_left: false, turn_right: false, thrust: false, fire: false },
        Vec2 { x: 0, y: FORWARD_SCALE },
        0,
        0,
    );
    assert!(ev.defeated);
    assert!(!ev.wave_spawned);
    assert_eq!(g.phase, Phase::Defeated);
}

#[test]
fn a_defeated_run_never_advances_again() {
    let mut g = quiet_state();
    g.rocks[0] = Rock { pos: g.ship.pos, vel: Vec2 { x: 0, y: 0 } };
    g.player_rock_collision();
    assert_eq!(g.phase, Phase::Defeated);
    let ship_before = g.ship;
    let rocks_before = g.rocks.clone();
    let score_before = g.score;
    let ev = g.tick(
        TickInputs { turn_left: true, turn_right: false, thrust: true, fire: true },
        Vec2 { x: 0, y: FORWARD_SCALE },
        10_000,
        16,
    );
    assert_eq!(
        ev,
        TickEvents { fired: false, rocks_destroyed: 0, wave_spawned: false, defeated: false }
    );
    assert_eq!(g.ship, ship_before);
    assert_eq!(g.rocks, rocks_before);
    assert_eq!(g.score, score_before);
    assert_eq!(g.phase, Phase::Defeated);
}

#[test]
fn a_full_tick_reports_its_events() {
    let mut g = quiet_state();
    let ev = g.tick(
        TickInputs { turn_left: false, turn_right: false, thrust: false, fire: true },
        Vec2 { x: 0, y: FORWARD_SCALE },
        0,
        16,
    );
    assert!(ev.fired);
    assert!(!ev.defeated);
    assert!(!ev.wave_spawned);
    assert_eq!(ev.rocks_destroyed, 0);
    assert_eq!(g.shots.len(), 1);
}

#[test]
fn a_shot_destroys_one_rock_and_scores_one_point() {
    let mut g = quiet_state();
    let target = g.rocks[0].pos;
    g.shots = vec![Shot { pos: target, vel: Vec2 { x: 0, y: 0 }, angle: 0, ttl: SHOT_TTL_MS }];
    let destroyed = g.rock_shot_collision();
    assert_eq!(destroyed, 1);
    assert_eq!(g.kills, 4);
    assert_eq!(g.score, 4);
    assert_eq!(g.rocks.len(), 1);
    assert_eq!(g.shots.len(), 0);
}

#[test]
fn one_shot_hits_at_most_one_rock() {
    let mut g = quiet_state();
    // two rocks overlapping the same shot position: only the first dies
    g.rocks = vec![
        Rock { pos: Vec2 { x: 0, y: 0 }, vel: Vec2 { x: 0, y: 0 } },
        Rock { pos: Vec2 { x: 30_000_000, y: 0 }, vel: Vec2 { x: 0, y: 0 } },
    ];
    g.shots = vec![Shot {
        pos: Vec2 { x: 15_000_000, y: 0 },
        vel: Vec2 { x: 0, y: 0 },
        angle: 0,
        ttl: SHOT_TTL_MS,
    }];
    let destroyed = g.rock_shot_collision();
    assert_eq!(destroyed, 1);
    assert_eq!(g.rocks.len(), 1);
    assert_eq!(g.rocks[0].pos, Vec2 { x: 30_000_000, y: 0 });
}
