//! The wave/level controller: rejection-sampled rock placement, random rock
//! velocities, and the transition that spawns the next, larger wave.

use vstd::prelude::*;
use crate::geom::{
    Vec2, norm_sq, spec_circles_overlap, circles_overlap, scale_to_length, half_even,
    lemma_comp_bound_from_norm, lemma_square_bound,
};
use crate::state::{
    GameState, Rock, ROCK_RADIUS, EXCLUSION_RADIUS, MAX_ROCK_SPEED, VEL_CAP, LEVEL_CAP,
    dims_ok, ship_wf, shot_wf, rock_wf, game_wf, vel_bounded, on_screen,
    spec_total_rock_count, cleared_rock_total,
};
use crate::rng::rand_in_range;

verus! {

/// How many random draws placement or direction sampling makes before
/// falling back to a deterministic choice, so spawning always terminates.
pub const SPAWN_ATTEMPTS: u32 = 100;

/// Magnitude of the square the random direction vector is drawn from.
pub const DIR_RANGE: i64 = 65_536;

/// Draw a spawn position in the visible bounds that stays clear of the
/// exclusion zone around `excl`: random candidates are redrawn while they
/// overlap the zone, and after `SPAWN_ATTEMPTS` misses the screen corner
/// farthest from `excl` — which the screen is large enough to keep clear —
/// is taken, so the function always terminates.
pub fn place_rock(width: i64, height: i64, excl: Vec2) -> (p: Vec2)
    requires
        dims_ok(width as int, height as int),
        on_screen(excl, width as int, height as int),
    ensures
        on_screen(p, width as int, height as int),
        !spec_circles_overlap(p, ROCK_RADIUS, excl, EXCLUSION_RADIUS),
{
    let hw: i64 = half_even(width);
    let hh: i64 = half_even(height);
    let mut attempts: u32 = 0;
    while attempts < SPAWN_ATTEMPTS
        invariant
            hw == width as int / 2,
            hh == height as int / 2,
            dims_ok(width as int, height as int),
            on_screen(excl, width as int, height as int),
        decreases SPAWN_ATTEMPTS - attempts,
    {
        let cand = Vec2 { x: rand_in_range(-hw, hw), y: rand_in_range(-hh, hh) };
        if !circles_overlap(cand, ROCK_RADIUS, excl, EXCLUSION_RADIUS) {
            return cand;
        }
        attempts = attempts + 1;
    }
    let corner = Vec2 {
        x: if excl.x <= 0 { hw } else { -hw },
        y: if excl.y <= 0 { hh } else { -hh },
    };
    proof {
        let dx = corner.x - excl.x as int;
        let dy = corner.y - excl.y as int;
        assert(dx * dx >= hw * hw && dy * dy >= hh * hh) by (nonlinear_arith)
            requires
                (dx >= hw >= 0) || (-dx >= hw >= 0),
                (dy >= hh >= 0) || (-dy >= hh >= 0);
        assert(!spec_circles_overlap(corner, ROCK_RADIUS, excl, EXCLUSION_RADIUS));
    }
    corner
}

/// Draw a random velocity for a freshly spawned rock: a uniformly random
/// direction (a rejection-sampled point of the unit disc) scaled to a
/// uniformly random speed below `MAX_ROCK_SPEED`.
pub fn rock_velocity() -> (v: Vec2)
    ensures
        norm_sq(v) < MAX_ROCK_SPEED * MAX_ROCK_SPEED,
        vel_bounded(v, VEL_CAP as int),
{
    let speed: i64 = rand_in_range(0, MAX_ROCK_SPEED);
    let mut attempts: u32 = 0;
    proof {
        lemma_square_bound(speed as int, (MAX_ROCK_SPEED - 1) as int);
        assert((MAX_ROCK_SPEED - 1) * (MAX_ROCK_SPEED - 1) < MAX_ROCK_SPEED * MAX_ROCK_SPEED)
            by (nonlinear_arith);
    }
    while attempts < SPAWN_ATTEMPTS
        invariant
            0 <= speed < MAX_ROCK_SPEED,
        decreases SPAWN_ATTEMPTS - attempts,
    {
        let dir = Vec2 { x: rand_in_range(-DIR_RANGE, DIR_RANGE), y: rand_in_range(-DIR_RANGE, DIR_RANGE) };
        proof {
            lemma_square_bound(dir.x as int, DIR_RANGE as int);
            lemma_square_bound(dir.y as int, DIR_RANGE as int);
        }
        if dir.x * dir.x + dir.y * dir.y >= 1 {
            let v = scale_to_length(dir, speed);
            proof {
                lemma_square_bound(speed as int, (MAX_ROCK_SPEED - 1) as int);
                assert((MAX_ROCK_SPEED - 1) * (MAX_ROCK_SPEED - 1)
                    < MAX_ROCK_SPEED * MAX_ROCK_SPEED) by (nonlinear_arith);
                lemma_comp_bound_from_norm(v, (MAX_ROCK_SPEED - 1) as int);
            }
            return v;
        }
        attempts = attempts + 1;
    }
    proof {
        lemma_square_bound(speed as int, (MAX_ROCK_SPEED - 1) as int);
        assert((MAX_ROCK_SPEED - 1) * (MAX_ROCK_SPEED - 1) < MAX_ROCK_SPEED * MAX_ROCK_SPEED)
            by (nonlinear_arith);
        assert(norm_sq(Vec2 { x: speed, y: 0 }) == speed * speed);
    }
    Vec2 { x: speed, y: 0 }
}

/// Check a pair of screen dimensions against what the simulation accepts.
pub fn dims_valid(width: i64, height: i64) -> (b: bool)
    ensures
        b == dims_ok(width as int, height as int),
{
    if !(4 <= width && width <= crate::state::MAX_DIM && 4 <= height
        && height <= crate::state::MAX_DIM) {
        return false;
    }
    if (width as u64) % 2 != 0 || (height as u64) % 2 != 0 {
        return false;
    }
    let hw: i64 = half_even(width);
    let hh: i64 = half_even(height);
    proof {
        lemma_square_bound(hw as int, 0x8000_0000_0000int);
        lemma_square_bound(hh as int, 0x8000_0000_0000int);
        lemma_square_bound((EXCLUSION_RADIUS + ROCK_RADIUS) as int, 0x8000_0000_0000int);
    }
    let lhs: i128 = (hw as i128) * (hw as i128) + (hh as i128) * (hh as i128);
    let r: i128 = (EXCLUSION_RADIUS + ROCK_RADIUS) as i128;
    lhs >= r * r
}

impl GameState {
    /// Set up a fresh run: the ship at the origin and at rest with its
    /// cooldown already elapsed, a zero score, and the first wave (five
    /// rocks) spawned around an exclusion zone at the origin.
    pub fn new(width: i64, height: i64) -> (g: GameState)
        requires
            dims_ok(width as int, height as int),
        ensures
            game_wf(g),
            g.width == width,
            g.height == height,
            g.level == 1,
            g.kills == 0,
            g.score == 0,
            g.phase == crate::state::Phase::Active,
            g.shots@.len() == 0,
            g.rocks@.len() == 5,
            g.ship == (crate::state::Ship {
                pos: Vec2 { x: 0, y: 0 },
                vel: Vec2 { x: 0, y: 0 },
                angle: 0,
                last_shot: crate::state::INITIAL_LAST_SHOT,
            }),
            forall|i: int|
                0 <= i < g.rocks@.len() ==> !spec_circles_overlap(
                    (#[trigger] g.rocks@[i]).pos,
                    ROCK_RADIUS,
                    Vec2 { x: 0, y: 0 },
                    EXCLUSION_RADIUS,
                ),
    {
        let mut g = GameState {
            width,
            height,
            ship: crate::state::Ship {
                pos: Vec2 { x: 0, y: 0 },
                vel: Vec2 { x: 0, y: 0 },
                angle: 0,
                last_shot: crate::state::INITIAL_LAST_SHOT,
            },
            rocks: Vec::new(),
            shots: Vec::new(),
            level: 0,
            kills: 0,
            score: 0,
            phase: crate::state::Phase::Active,
        };
        g.next_level(Vec2 { x: 0, y: 0 });
        g
    }

    /// The wave controller's clear check: once the wave's kill count
    /// reaches the wave size, the next wave spawns with the exclusion zone
    /// centered on the ship's current position, so new rocks never appear
    /// on top of the ship.  Returns whether a wave was spawned.
    ///
    /// Progression stops at `LEVEL_CAP`, which keeps the `u16` level
    /// counter from overflowing: a wave cleared at the cap stays cleared
    /// and the run idles with no rocks instead of advancing.
    pub fn check_wave_clear(&mut self) -> (spawned: bool)
        requires
            game_wf(*old(self)),
        ensures
            game_wf(*final(self)),
            spawned == (old(self).kills == spec_total_rock_count(old(self).level as int)
                && old(self).level < LEVEL_CAP),
            !spawned ==> *final(self) == *old(self),
            spawned ==> {
                &&& final(self).level == old(self).level + 1
                &&& final(self).kills == 0
                &&& final(self).rocks@.len() == spec_total_rock_count(final(self).level as int)
                &&& forall|i: int|
                    0 <= i < final(self).rocks@.len() ==> !spec_circles_overlap(
                        (#[trigger] final(self).rocks@[i]).pos,
                        ROCK_RADIUS,
                        old(self).ship.pos,
                        EXCLUSION_RADIUS,
                    ) && on_screen(final(self).rocks@[i].pos, final(self).width as int,
                        final(self).height as int)
                        && norm_sq(final(self).rocks@[i].vel)
                            < MAX_ROCK_SPEED * MAX_ROCK_SPEED
                &&& final(self).ship == old(self).ship
                &&& final(self).shots == old(self).shots
                &&& final(self).score == old(self).score
                &&& final(self).phase == old(self).phase
                &&& final(self).width == old(self).width
                &&& final(self).height == old(self).height
            },
    {
        let total: u16 = self.total_rock_count();
        if self.kills == total && self.level < LEVEL_CAP {
            let excl = self.ship.pos;
            self.next_level(excl);
            true
        } else {
            false
        }
    }
}

impl GameState {
    /// Advance to the next wave: the level number goes up by one, the wave
    /// kill count resets, and `level + 4` rocks spawn at random positions
    /// outside the exclusion zone centered on `excl` (the ship's position,
    /// or the origin at the very first spawn).
    pub fn next_level(&mut self, excl: Vec2)
        requires
            dims_ok(old(self).width as int, old(self).height as int),
            ship_wf(old(self).ship, old(self).width as int, old(self).height as int),
            forall|i: int|
                0 <= i < old(self).shots@.len() ==> shot_wf(
                    #[trigger] old(self).shots@[i],
                    old(self).width as int,
                    old(self).height as int,
                ),
            old(self).level < LEVEL_CAP,
            old(self).rocks@.len() == 0,
            old(self).score == cleared_rock_total(old(self).level as int + 1),
            on_screen(excl, old(self).width as int, old(self).height as int),
        ensures
            game_wf(*final(self)),
            final(self).level == old(self).level + 1,
            final(self).kills == 0,
            final(self).rocks@.len() == spec_total_rock_count(final(self).level as int),
            forall|i: int|
                0 <= i < final(self).rocks@.len() ==> !spec_circles_overlap(
                    (#[trigger] final(self).rocks@[i]).pos,
                    ROCK_RADIUS,
                    excl,
                    EXCLUSION_RADIUS,
                ) && on_screen(final(self).rocks@[i].pos, final(self).width as int,
                    final(self).height as int)
                    && norm_sq(final(self).rocks@[i].vel)
                        < MAX_ROCK_SPEED * MAX_ROCK_SPEED,
            final(self).ship == old(self).ship,
            final(self).shots == old(self).shots,
            final(self).score == old(self).score,
            final(self).phase == old(self).phase,
            final(self).width == old(self).width,
            final(self).height == old(self).height,
    {
        self.level = self.level + 1;
        self.kills = 0;
        let count: u16 = self.total_rock_count();
        let mut spawned: u16 = 0;
        while spawned < count
            invariant
                self.rocks@.len() == spawned,
                spawned <= count,
                self.level == old(self).level + 1,
                self.kills == 0,
                count == spec_total_rock_count(self.level as int),
                self.ship == old(self).ship,
                self.shots == old(self).shots,
                self.score == old(self).score,
                self.phase == old(self).phase,
                self.width == old(self).width,
                self.height == old(self).height,
                dims_ok(self.width as int, self.height as int),
                on_screen(excl, self.width as int, self.height as int),
                forall|i: int|
                    0 <= i < self.rocks@.len() ==> !spec_circles_overlap(
                        (#[trigger] self.rocks@[i]).pos,
                        ROCK_RADIUS,
                        excl,
                        EXCLUSION_RADIUS,
                    ) && on_screen(self.rocks@[i].pos, self.width as int, self.height as int)
                        && norm_sq(self.rocks@[i].vel) < MAX_ROCK_SPEED * MAX_ROCK_SPEED
                        && vel_bounded(self.rocks@[i].vel, VEL_CAP as int),
            decreases count - spawned,
        {
            let pos = place_rock(self.width, self.height, excl);
            let vel = rock_velocity();
            self.rocks.push(Rock { pos, vel });
            spawned = spawned + 1;
        }
        proof {
            assert forall|i: int| 0 <= i < self.rocks@.len() implies rock_wf(
                #[trigger] self.rocks@[i],
                self.width as int,
                self.height as int,
            ) by {
                assert(on_screen(self.rocks@[i].pos, self.width as int, self.height as int));
            }
        }
    }
}

} // verus!
