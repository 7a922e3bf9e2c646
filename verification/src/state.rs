//! The entity store and its well-formedness invariant: one ship, the rocks
//! of the current wave, the live projectiles, and the wave/score bookkeeping.

use vstd::prelude::*;
use crate::geom::{Vec2, norm_sq};

verus! {

// Distances are micro-pixels, times milliseconds, velocities micro-pixels
// per millisecond and angles micro-radians; 1 micro-pixel per millisecond
// equals 1 pixel per second.

/// Collision radius of the ship.
pub const PLAYER_RADIUS: i64 = 12_000_000;

/// Collision radius of a rock.
pub const ROCK_RADIUS: i64 = 12_000_000;

/// Collision radius of a projectile.
pub const SHOT_RADIUS: i64 = 6_000_000;

/// Radius of the spawn exclusion zone around the ship, several ship radii.
pub const EXCLUSION_RADIUS: i64 = 36_000_000;

/// Rock-rock resolution pushes two centers at least this far apart
/// (two rock radii plus one pixel).
pub const SEPARATION_DIST: i64 = 25_000_000;

/// Largest speed a freshly spawned rock can have (exclusive).
pub const MAX_ROCK_SPEED: i64 = 50_000;

/// The ship's velocity magnitude is clamped to this maximum.
pub const MAX_SHIP_SPEED: i64 = 250_000;

/// Speed of a projectile relative to the ship that fires it.
pub const SHOT_SPEED: i64 = 200_000;

/// Largest per-component velocity a projectile can carry.
pub const SHOT_VEL_CAP: i64 = 450_000;

/// Per-component safety cap on rock velocities after collision responses.
pub const VEL_CAP: i64 = 2_000_000;

/// The ship's thrust acceleration, in micro-pixels per millisecond squared.
pub const PLAYER_THRUST: i64 = 100;

/// How fast the ship turns, in micro-radians per millisecond.
pub const PLAYER_TURN_RATE: i64 = 3_000;

/// Angular velocity of a projectile's sprite spin.
pub const SHOT_SPIN_RATE: i64 = 100;

/// A full turn in micro-radians.
pub const TAU_URAD: i64 = 6_283_185;

/// Lifetime of a projectile at spawn, in milliseconds.
pub const SHOT_TTL_MS: i64 = 2_000;

/// Refire delay between projectiles, in milliseconds.
pub const COOLDOWN_MS: i64 = 500;

/// The cooldown stamp a fresh ship starts with: far enough in the past
/// that the first shot is never suppressed.
pub const INITIAL_LAST_SHOT: i64 = -2 * COOLDOWN_MS;

/// Fixed-point scale of the ship's forward unit vector: a component of
/// `FORWARD_SCALE` stands for 1.0.
pub const FORWARD_SCALE: i64 = 65_536;

/// Largest tick duration the simulation accepts, in milliseconds.
pub const DT_CAP: i64 = 1_000_000;

/// Largest wall-clock timestamp the simulation accepts, in milliseconds.
pub const TIME_CAP: i64 = 0x1_0000_0000_0000;

/// Largest screen dimension, in micro-pixels.
pub const MAX_DIM: i64 = 4_000_000_000;

/// How far outside the screen rectangle a position may temporarily sit
/// (collision separation happens between wrap passes).
pub const POS_MARGIN: i64 = 100_000_000;

/// Highest reachable level; the wave controller stops advancing here so the
/// `u16` level counter can never overflow.
pub const LEVEL_CAP: u16 = 65_530;

/// The player-controlled ship: position and orientation, velocity, and the
/// timestamp of its last shot for cooldown gating.
#[derive(Clone, Copy, Debug, PartialEq, Eq, Structural)]
pub struct Ship {
    pub pos: Vec2,
    pub vel: Vec2,
    pub angle: i64,
    pub last_shot: i64,
}

/// A drifting rock.
#[derive(Clone, Copy, Debug, PartialEq, Eq, Structural)]
pub struct Rock {
    pub pos: Vec2,
    pub vel: Vec2,
}

/// A projectile: it spins while it flies and expires when its remaining
/// lifetime runs out.
#[derive(Clone, Copy, Debug, PartialEq, Eq, Structural)]
pub struct Shot {
    pub pos: Vec2,
    pub vel: Vec2,
    pub angle: i64,
    pub ttl: i64,
}

/// Whether the simulation is still running.  `Defeated` is terminal: no
/// further tick changes the state.
#[derive(Clone, Copy, Debug, PartialEq, Eq, Structural)]
pub enum Phase {
    Active,
    Defeated,
}

/// The whole simulation state for one run.
pub struct GameState {
    pub width: i64,
    pub height: i64,
    pub ship: Ship,
    pub rocks: Vec<Rock>,
    pub shots: Vec<Shot>,
    pub level: u16,
    pub kills: u16,
    pub score: u64,
    pub phase: Phase,
}

/// Both components of `v` lie in `[-lim, lim]`.
pub open spec fn vel_bounded(v: Vec2, lim: int) -> bool {
    -lim <= v.x <= lim && -lim <= v.y <= lim
}

/// `p` lies in the visible screen rectangle (both half-dimensions included).
pub open spec fn on_screen(p: Vec2, w: int, h: int) -> bool {
    &&& -w / 2 <= p.x <= w / 2
    &&& -h / 2 <= p.y <= h / 2
}

/// `p` lies within the screen rectangle, allowing the small margin by which
/// collision separation may push a rock out between wrap passes.
pub open spec fn in_play_area(p: Vec2, w: int, h: int) -> bool {
    &&& -w / 2 - POS_MARGIN <= p.x <= w / 2 + POS_MARGIN
    &&& -h / 2 - POS_MARGIN <= p.y <= h / 2 + POS_MARGIN
}

/// The screen dimensions the simulation accepts: even (so half-dimensions
/// are exact), bounded, and large enough that a spawn position outside the
/// exclusion zone always exists (a farthest corner works).
pub open spec fn dims_ok(w: int, h: int) -> bool {
    &&& 4 <= w <= MAX_DIM
    &&& 4 <= h <= MAX_DIM
    &&& w % 2 == 0
    &&& h % 2 == 0
    &&& (w / 2) * (w / 2) + (h / 2) * (h / 2)
        >= (EXCLUSION_RADIUS + ROCK_RADIUS) * (EXCLUSION_RADIUS + ROCK_RADIUS)
}

/// Well-formedness of the ship.
pub open spec fn ship_wf(s: Ship, w: int, h: int) -> bool {
    &&& on_screen(s.pos, w, h)
    &&& norm_sq(s.vel) <= MAX_SHIP_SPEED * MAX_SHIP_SPEED
    &&& vel_bounded(s.vel, MAX_SHIP_SPEED as int)
    &&& 0 <= s.angle < TAU_URAD
    &&& -2 * COOLDOWN_MS <= s.last_shot <= TIME_CAP
}

/// Well-formedness of a rock.
pub open spec fn rock_wf(r: Rock, w: int, h: int) -> bool {
    &&& in_play_area(r.pos, w, h)
    &&& vel_bounded(r.vel, VEL_CAP as int)
}

/// Well-formedness of a projectile.
pub open spec fn shot_wf(s: Shot, w: int, h: int) -> bool {
    &&& in_play_area(s.pos, w, h)
    &&& vel_bounded(s.vel, SHOT_VEL_CAP as int)
    &&& 0 <= s.angle < TAU_URAD
    &&& 0 < s.ttl <= SHOT_TTL_MS
}

/// How many rocks the wave of a given level holds.
pub open spec fn spec_total_rock_count(level: int) -> int {
    level + 4
}

/// How many rocks all waves before the given level held together; the score
/// always equals this plus the kills of the running wave.
pub open spec fn cleared_rock_total(level: int) -> int
    decreases level,
{
    if level <= 1 {
        0
    } else {
        cleared_rock_total(level - 1) + (level - 1) + 4
    }
}

/// The simulation invariant: every constructor establishes it and every
/// tick preserves it.
pub open spec fn game_wf(g: GameState) -> bool {
    &&& dims_ok(g.width as int, g.height as int)
    &&& ship_wf(g.ship, g.width as int, g.height as int)
    &&& forall|i: int|
        0 <= i < g.rocks@.len() ==> rock_wf(
            #[trigger] g.rocks@[i],
            g.width as int,
            g.height as int,
        )
    &&& forall|i: int|
        0 <= i < g.shots@.len() ==> shot_wf(
            #[trigger] g.shots@[i],
            g.width as int,
            g.height as int,
        )
    &&& 1 <= g.level <= LEVEL_CAP
    &&& g.rocks@.len() + g.kills == spec_total_rock_count(g.level as int)
    &&& g.kills <= spec_total_rock_count(g.level as int)
    &&& g.score == cleared_rock_total(g.level as int) + g.kills
}

/// The running score is bounded: even at the level cap it stays far below
/// the `u64` range, so score arithmetic cannot overflow.
pub proof fn lemma_cleared_rock_total_bounds(level: int)
    requires
        1 <= level <= LEVEL_CAP,
    ensures
        0 <= cleared_rock_total(level) <= 70_000 * (level - 1),
        cleared_rock_total(level) < 0x2_0000_0000,
    decreases level,
{
    if level > 1 {
        lemma_cleared_rock_total_bounds(level - 1);
        assert(70_000 * (level - 2) + 70_000 == 70_000 * (level - 1)) by (nonlinear_arith);
        assert(70_000 * (level - 1) <= 70_000 * (LEVEL_CAP - 1)) by (nonlinear_arith)
            requires
                level <= LEVEL_CAP;
    }
}

impl GameState {
    /// Size of the currently running wave: `level + 4` rocks.
    pub fn total_rock_count(&self) -> (n: u16)
        requires
            self.level <= LEVEL_CAP,
        ensures
            n == spec_total_rock_count(self.level as int),
    {
        self.level + 4
    }
}

} // verus!
