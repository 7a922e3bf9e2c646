use bastroblasto::geom::Vec2;
use bastroblasto::state::{
    GameState, Phase, Rock, Shot, EXCLUSION_RADIUS, INITIAL_LAST_SHOT, MAX_ROCK_SPEED,
    ROCK_RADIUS, SHOT_TTL_MS, Ship,
};
use bastroblasto::wave::{dims_valid, place_rock, rock_velocity};

const W: i64 = 800_000_000;
const H: i64 = 600_000_000;

fn dist_sq(a: Vec2, b: Vec2) -> i128 {
    let dx = a.x as i128 - b.x as i128;
    let dy = a.y as i128 - b.y as i128;
    dx * dx + dy * dy
}

#[test]
fn accepted_screen_dimensions() {
    assert!(dims_valid(W, H));
    assert!(!dims_valid(0, H));
    assert!(!dims_valid(W + 1, H)); // odd width
    assert!(!dims_valid(100, 100)); // too small for the exclusion zone
}

#[test]
fn placement_never_lands_in_the_exclusion_zone() {
    let excl = Vec2 { x: 50_000_000, y: -20_000_000 };
    let min_sq = (EXCLUSION_RADIUS as i128 + ROCK_RADIUS as i128)
        * (EXCLUSION_RADIUS as i128 + ROCK_RADIUS as i128);
    for _ in 0..10_000 {
        let p = place_rock(W, H, excl);
        assert!(dist_sq(p, excl) >= min_sq);
        assert!(-W / 2 <= p.x && p.x <= W / 2);
        assert!(-H / 2 <= p.y && p.y <= H / 2);
    }
}

#[test]
fn rock_velocities_stay_below_the_speed_limit() {
    let max_sq = (MAX_ROCK_SPEED as i128) * (MAX_ROCK_SPEED as i128);
    for _ in 0..1_000 {
        let v = rock_velocity();
        let n = v.x as i128 * v.x as i128 + v.y as i128 * v.y as i128;
        assert!(n < max_sq);
    }
}

#[test]
fn first_wave_holds_five_rocks_clear_of_the_origin() {
    let g = GameState::new(W, H);
    assert_eq!(g.level, 1);
    assert_eq!(g.kills, 0);
    assert_eq!(g.score, 0);
    assert_eq!(g.rocks.len(), 5);
    assert_eq!(g.shots.len(), 0);
    assert_eq!(g.phase, Phase::Active);
    let origin = Vec2 { x: 0, y: 0 };
    let min_sq = (EXCLUSION_RADIUS as i128 + ROCK_RADIUS as i128)
        * (EXCLUSION_RADIUS as i128 + ROCK_RADIUS as i128);
    for r in &g.rocks {
        assert!(dist_sq(r.pos, origin) >= min_sq);
    }
}

/// A hand-built mid-wave state whose invariant holds: the ship parked at
/// `ship_pos`, `rocks` live rocks of the level-1 wave, and one shot sitting
/// on each rock.
fn aimed_state(ship_pos: Vec2, rocks: &[Vec2]) -> GameState {
    let mut g = GameState::new(W, H);
    g.ship = Ship {
        pos: ship_pos,
        vel: Vec2 { x: 0, y: 0 },
        angle: 0,
        last_shot: INITIAL_LAST_SHOT,
    };
    g.rocks = rocks
        .iter()
        .map(|&p| Rock { pos: p, vel: Vec2 { x: 0, y: 0 } })
        .collect();
    g.shots = rocks
        .iter()
        .map(|&p| Shot {
            pos: p,
            vel: Vec2 { x: 0, y: 0 },
            angle: 0,
            ttl: SHOT_TTL_MS,
        })
        .collect();
    g.level = 1;
    g.kills = 5 - rocks.len() as u16;
    g.score = g.kills as u64;
    g
}

#[test]
fn clearing_a_wave_advances_the_level_and_avoids_the_ship() {
    let ship_pos = Vec2 { x: 120_000_000, y: 90_000_000 };
    let rocks = [
        Vec2 { x: -300_000_000, y: 0 },
        Vec2 { x: -200_000_000, y: 100_000_000 },
        Vec2 { x: 300_000_000, y: -200_000_000 },
        Vec2 { x: 0, y: 250_000_000 },
        Vec2 { x: 250_000_000, y: 250_000_000 },
    ];
    let mut g = aimed_state(ship_pos, &rocks);
    let destroyed = g.rock_shot_collision();
    assert_eq!(destroyed, 5);
    assert_eq!(g.kills, 5);
    assert_eq!(g.score, 5);
    assert_eq!(g.rocks.len(), 0);
    assert_eq!(g.shots.len(), 0);
    let spawned = g.check_wave_clear();
    assert!(spawned);
    assert_eq!(g.level, 2);
    assert_eq!(g.kills, 0);
    assert_eq!(g.score, 5);
    assert_eq!(g.rocks.len(), 6); // level + 4
    let min_sq = (EXCLUSION_RADIUS as i128 + ROCK_RADIUS as i128)
        * (EXCLUSION_RADIUS as i128 + ROCK_RADIUS as i128);
    for r in &g.rocks {
        assert!(dist_sq(r.pos, ship_pos) >= min_sq);
    }
}

#[test]
fn wave_size_scales_with_the_level() {
    // total rocks destroyed in all waves up to and excluding `level`
    fn cleared_total(level: u64) -> u64 {
        (1..level).map(|l| l + 4).sum()
    }
    let mut g = GameState::new(W, H);
    for expected_level in 2..=12u64 {
        g.kills = g.level + 4;
        g.rocks.clear();
        g.score = cleared_total(g.level as u64 + 1);
        assert!(g.check_wave_clear());
        assert_eq!(g.level as u64, expected_level);
        assert_eq!(g.rocks.len() as u64, expected_level + 4);
        assert_eq!(g.kills, 0);
    }
}

#[test]
fn an_unfinished_wave_does_not_advance() {
    let ship_pos = Vec2 { x: 0, y: 0 };
    let rocks = [Vec2 { x: -300_000_000, y: 0 }, Vec2 { x: 300_000_000, y: 0 }];
    let mut g = aimed_state(ship_pos, &rocks);
    g.shots.clear();
    let spawned = g.check_wave_clear();
    assert!(!spawned);
    assert_eq!(g.level, 1);
    assert_eq!(g.rocks.len(), 2);
}
