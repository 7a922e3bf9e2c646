//! Ship control and the firing subsystem: turning, thrust with a clamped
//! top speed, and cooldown-gated projectile spawning.
//!
//! Trigonometry is not part of the core: the host computes the ship's
//! forward unit vector from its orientation and passes it in as a
//! fixed-point vector whose components are scaled by `FORWARD_SCALE`.

use vstd::prelude::*;
use crate::geom::{
    Vec2, norm_sq, div_trunc, div_trunc_i64, sqrt_ceil, scale_to_length, mod_euclid,
    lemma_square_bound, lemma_comp_bound_from_norm,
};
use crate::state::{
    GameState, Ship, Shot, MAX_SHIP_SPEED, SHOT_SPEED, PLAYER_THRUST,
    PLAYER_TURN_RATE, TAU_URAD, SHOT_TTL_MS, COOLDOWN_MS, FORWARD_SCALE, DT_CAP, TIME_CAP,
    game_wf,
};

verus! {

/// The turn direction the input encodes: left is positive, right negative.
pub open spec fn turn_direction(left: bool, right: bool) -> int {
    (if left { 1int } else { 0int }) - (if right { 1int } else { 0int })
}

/// A forward vector the control functions accept: a fixed-point unit vector
/// with components scaled by `FORWARD_SCALE`.
pub open spec fn forward_ok(f: Vec2) -> bool {
    -FORWARD_SCALE <= f.x <= FORWARD_SCALE && -FORWARD_SCALE <= f.y <= FORWARD_SCALE
}

/// The ship after one tick of turning: its orientation advances by
/// `PLAYER_TURN_RATE * dt` in the input's direction, normalized into
/// `[0, TAU_URAD)`; nothing else changes.
pub open spec fn turned_ship(ship: Ship, left: bool, right: bool, dt: i64) -> Ship {
    Ship {
        angle: ((ship.angle + PLAYER_TURN_RATE * dt * turn_direction(left, right))
            % (TAU_URAD as int)) as i64,
        ..ship
    }
}

/// The ship's velocity after one tick of thrust: while active, the thrust
/// acceleration integrates along the forward vector and the result is
/// rescaled onto `MAX_SHIP_SPEED` if it would exceed it.
pub open spec fn thrust_vel(v: Vec2, active: bool, forward: Vec2, dt: i64) -> Vec2 {
    if !active {
        v
    } else {
        let mx = v.x + div_trunc(PLAYER_THRUST * dt * forward.x, FORWARD_SCALE as int);
        let my = v.y + div_trunc(PLAYER_THRUST * dt * forward.y, FORWARD_SCALE as int);
        if mx * mx + my * my <= MAX_SHIP_SPEED * MAX_SHIP_SPEED {
            Vec2 { x: mx as i64, y: my as i64 }
        } else {
            Vec2 {
                x: div_trunc(mx * MAX_SHIP_SPEED, sqrt_ceil((mx * mx + my * my) as nat) as int)
                    as i64,
                y: div_trunc(my * MAX_SHIP_SPEED, sqrt_ceil((mx * mx + my * my) as nat) as int)
                    as i64,
            }
        }
    }
}

/// The cooldown gate: a new projectile may spawn only when more than
/// `COOLDOWN_MS` milliseconds have passed since the last one.
pub open spec fn fire_allowed(ship: Ship, now: int) -> bool {
    now - ship.last_shot > COOLDOWN_MS
}

/// The projectile a successful fire at time `now` spawns: it starts at the
/// ship, keeps the ship's orientation, and inherits the ship's momentum on
/// top of its own `SHOT_SPEED` along the forward vector.
pub open spec fn spec_new_shot(ship: Ship, forward: Vec2, now: i64) -> Shot {
    Shot {
        pos: ship.pos,
        vel: Vec2 {
            x: (ship.vel.x + div_trunc(SHOT_SPEED * forward.x, FORWARD_SCALE as int)) as i64,
            y: (ship.vel.y + div_trunc(SHOT_SPEED * forward.y, FORWARD_SCALE as int)) as i64,
        },
        angle: ship.angle,
        ttl: SHOT_TTL_MS,
    }
}

/// The projectiles after a fire attempt at time `now`.
pub open spec fn fire_result_shots(
    shots: Seq<Shot>,
    ship: Ship,
    fire: bool,
    forward: Vec2,
    now: i64,
) -> Seq<Shot> {
    if fire && fire_allowed(ship, now as int) {
        shots.push(spec_new_shot(ship, forward, now))
    } else {
        shots
    }
}

/// The ship after a fire attempt at time `now`: a successful fire stamps
/// the cooldown clock, a suppressed one changes nothing.
pub open spec fn fire_result_ship(ship: Ship, fire: bool, now: i64) -> Ship {
    if fire && fire_allowed(ship, now as int) {
        Ship { last_shot: now, ..ship }
    } else {
        ship
    }
}

proof fn lemma_div_trunc_magnitude(a: int, n: int, m: int)
    requires
        n >= 1,
        -(m * n) <= a <= m * n,
        m >= 0,
    ensures
        -m <= div_trunc(a, n) <= m,
{
    crate::geom::lemma_div_trunc_product_bound(a, n);
    let q = div_trunc(a, n);
    assert(-(m * n) <= q * n <= m * n);
    assert(-m <= q <= m) by (nonlinear_arith)
        requires
            n >= 1,
            m >= 0,
            -(m * n) <= q * n <= m * n;
}

impl GameState {
    /// Rotate the ship by the turn input over `dt` milliseconds, keeping
    /// its orientation normalized into `[0, TAU_URAD)`.
    pub fn turn_ship(&mut self, left: bool, right: bool, dt: i64)
        requires
            game_wf(*old(self)),
            0 <= dt <= DT_CAP,
        ensures
            game_wf(*final(self)),
            final(self).ship == turned_ship(old(self).ship, left, right, dt),
            final(self).ship.angle == (old(self).ship.angle
                + PLAYER_TURN_RATE * dt * turn_direction(left, right)) % (TAU_URAD as int),
            *final(self) == (GameState { ship: final(self).ship, ..*old(self) }),
    {
        proof {
            assert(0 <= PLAYER_TURN_RATE * dt <= PLAYER_TURN_RATE * DT_CAP) by (nonlinear_arith)
                requires
                    0 <= dt <= DT_CAP;
        }
        let delta: i64 = PLAYER_TURN_RATE * dt;
        let shifted: i64 = if left && !right {
            self.ship.angle + delta
        } else if right && !left {
            self.ship.angle - delta
        } else {
            self.ship.angle
        };
        proof {
            let d = turn_direction(left, right);
            if left && !right {
                assert(PLAYER_TURN_RATE * dt * d == PLAYER_TURN_RATE * dt) by (nonlinear_arith)
                    requires
                        d == 1;
            } else if right && !left {
                assert(PLAYER_TURN_RATE * dt * d == -(PLAYER_TURN_RATE * dt))
                    by (nonlinear_arith)
                    requires
                        d == -1;
            } else {
                assert(PLAYER_TURN_RATE * dt * d == 0) by (nonlinear_arith)
                    requires
                        d == 0;
            }
        }
        let na: i64 = mod_euclid(shifted, TAU_URAD);
        self.ship.angle = na;
    }

    /// While thrust is active, accelerate the ship along its forward vector
    /// and clamp the velocity back to `MAX_SHIP_SPEED` if it would exceed
    /// it — the magnitude is clamped, the direction kept.
    pub fn thrust_ship(&mut self, active: bool, forward: Vec2, dt: i64)
        requires
            game_wf(*old(self)),
            forward_ok(forward),
            0 <= dt <= DT_CAP,
        ensures
            game_wf(*final(self)),
            *final(self) == (GameState { ship: final(self).ship, ..*old(self) }),
            final(self).ship == (Ship {
                vel: thrust_vel(old(self).ship.vel, active, forward, dt),
                ..old(self).ship
            }),
            !active ==> final(self).ship.vel == old(self).ship.vel,
            active ==> ({
                let mx = old(self).ship.vel.x
                    + div_trunc(PLAYER_THRUST * dt * forward.x, FORWARD_SCALE as int);
                let my = old(self).ship.vel.y
                    + div_trunc(PLAYER_THRUST * dt * forward.y, FORWARD_SCALE as int);
                &&& norm_sq(final(self).ship.vel) <= MAX_SHIP_SPEED * MAX_SHIP_SPEED
                &&& (mx * mx + my * my <= MAX_SHIP_SPEED * MAX_SHIP_SPEED
                    ==> final(self).ship.vel.x == mx && final(self).ship.vel.y == my)
                &&& (mx * mx + my * my > MAX_SHIP_SPEED * MAX_SHIP_SPEED
                    ==> final(self).ship.vel.x == div_trunc(mx * MAX_SHIP_SPEED,
                        sqrt_ceil((mx * mx + my * my) as nat) as int)
                        && final(self).ship.vel.y == div_trunc(my * MAX_SHIP_SPEED,
                        sqrt_ceil((mx * mx + my * my) as nat) as int))
            }),
    {
        if !active {
            return ;
        }
        proof {
            assert(-PLAYER_THRUST * DT_CAP * FORWARD_SCALE <= PLAYER_THRUST * dt * forward.x
                <= PLAYER_THRUST * DT_CAP * FORWARD_SCALE) by (nonlinear_arith)
                requires
                    0 <= dt <= DT_CAP,
                    -FORWARD_SCALE <= forward.x <= FORWARD_SCALE;
            assert(-PLAYER_THRUST * DT_CAP * FORWARD_SCALE <= PLAYER_THRUST * dt * forward.y
                <= PLAYER_THRUST * DT_CAP * FORWARD_SCALE) by (nonlinear_arith)
                requires
                    0 <= dt <= DT_CAP,
                    -FORWARD_SCALE <= forward.y <= FORWARD_SCALE;
            lemma_div_trunc_magnitude(
                PLAYER_THRUST * dt * forward.x as int,
                FORWARD_SCALE as int,
                PLAYER_THRUST * DT_CAP as int,
            );
            lemma_div_trunc_magnitude(
                PLAYER_THRUST * dt * forward.y as int,
                FORWARD_SCALE as int,
                PLAYER_THRUST * DT_CAP as int,
            );
        }
        let dvx: i64 = div_trunc_i64(PLAYER_THRUST * dt * forward.x, FORWARD_SCALE);
        let dvy: i64 = div_trunc_i64(PLAYER_THRUST * dt * forward.y, FORWARD_SCALE);
        let mid = Vec2 { x: self.ship.vel.x + dvx, y: self.ship.vel.y + dvy };
        proof {
            lemma_square_bound(mid.x as int, 0x4000_0000);
            lemma_square_bound(mid.y as int, 0x4000_0000);
            lemma_square_bound(MAX_SHIP_SPEED as int, MAX_SHIP_SPEED as int);
        }
        let nsq: i64 = mid.x * mid.x + mid.y * mid.y;
        if nsq > MAX_SHIP_SPEED * MAX_SHIP_SPEED {
            let clamped = scale_to_length(mid, MAX_SHIP_SPEED);
            proof {
                lemma_comp_bound_from_norm(clamped, MAX_SHIP_SPEED as int);
            }
            self.ship.vel = clamped;
        } else {
            self.ship.vel = mid;
            proof {
                lemma_comp_bound_from_norm(mid, MAX_SHIP_SPEED as int);
            }
        }
    }

    /// Attempt to fire: a projectile spawns only when the fire input is
    /// pressed and the cooldown window has passed, and a successful spawn
    /// stamps the cooldown clock with `now`.  The returned flag tells the
    /// host to trigger the shot sound exactly once per spawn.
    pub fn try_fire(&mut self, fire: bool, forward: Vec2, now: i64) -> (fired: bool)
        requires
            game_wf(*old(self)),
            forward_ok(forward),
            0 <= now <= TIME_CAP,
        ensures
            game_wf(*final(self)),
            fired == (fire && fire_allowed(old(self).ship, now as int)),
            final(self).shots@ == fire_result_shots(
                old(self).shots@, old(self).ship, fire, forward, now),
            final(self).ship == fire_result_ship(old(self).ship, fire, now),
            *final(self) == (GameState {
                ship: final(self).ship,
                shots: final(self).shots,
                ..*old(self)
            }),
    {
        if !fire {
            return false;
        }
        if now - self.ship.last_shot <= COOLDOWN_MS {
            return false;
        }
        proof {
            assert(-SHOT_SPEED * FORWARD_SCALE <= SHOT_SPEED * forward.x
                <= SHOT_SPEED * FORWARD_SCALE) by (nonlinear_arith)
                requires
                    -FORWARD_SCALE <= forward.x <= FORWARD_SCALE;
            assert(-SHOT_SPEED * FORWARD_SCALE <= SHOT_SPEED * forward.y
                <= SHOT_SPEED * FORWARD_SCALE) by (nonlinear_arith)
                requires
                    -FORWARD_SCALE <= forward.y <= FORWARD_SCALE;
            lemma_div_trunc_magnitude(
                SHOT_SPEED * forward.x as int, FORWARD_SCALE as int, SHOT_SPEED as int);
            lemma_div_trunc_magnitude(
                SHOT_SPEED * forward.y as int, FORWARD_SCALE as int, SHOT_SPEED as int);
        }
        let vx: i64 = self.ship.vel.x + div_trunc_i64(SHOT_SPEED * forward.x, FORWARD_SCALE);
        let vy: i64 = self.ship.vel.y + div_trunc_i64(SHOT_SPEED * forward.y, FORWARD_SCALE);
        let shot = Shot {
            pos: self.ship.pos,
            vel: Vec2 { x: vx, y: vy },
            angle: self.ship.angle,
            ttl: SHOT_TTL_MS,
        };
        self.shots.push(shot);
        self.ship.last_shot = now;
        true
    }
}

/// Firing twice within the cooldown window produces exactly one projectile,
/// and firing again after the window has elapsed produces a second: after a
/// successful fire at `t1`, a fire attempt at `t2 <= t1 + COOLDOWN_MS` is
/// suppressed, while one at `t3 > t1 + COOLDOWN_MS` spawns again.
pub proof fn lemma_cooldown_window(
    shots0: Seq<Shot>,
    ship0: Ship,
    forward: Vec2,
    t1: i64,
    t2: i64,
    t3: i64,
)
    requires
        fire_allowed(ship0, t1 as int),
        t1 <= t2 <= t1 + COOLDOWN_MS,
        t3 > t1 + COOLDOWN_MS,
    ensures
        ({
            let shots1 = fire_result_shots(shots0, ship0, true, forward, t1);
            let ship1 = fire_result_ship(ship0, true, t1);
            &&& shots1.len() == shots0.len() + 1
            &&& fire_result_shots(shots1, ship1, true, forward, t2) == shots1
            &&& fire_result_shots(shots1, ship1, true, forward, t3).len() == shots0.len() + 2
        }),
{
}

} // verus!
