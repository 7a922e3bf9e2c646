//! Per-tick physics: frame-rate-independent position integration with
//! screen wraparound, projectile spin, and projectile lifetime decay.

use vstd::prelude::*;
use crate::geom::{Vec2, wrap_position, mod_euclid, spec_wrap};
use crate::state::{
    GameState, Shot, VEL_CAP, SHOT_SPIN_RATE, TAU_URAD, DT_CAP,
    dims_ok, in_play_area, vel_bounded, game_wf, shot_wf, rock_wf, ship_wf,
};

verus! {

/// The wrapped coordinate after translation: `r` is exactly the translated
/// coordinate `x + vx * dt` wrapped back into `[-dim/2, dim/2)`.
pub open spec fn moves_to(x: int, vx: int, dt: int, dim: int, r: int) -> bool {
    &&& r == spec_wrap(x + vx * dt, dim)
    &&& -dim / 2 <= r < dim / 2
}

/// A position after one tick of translation and wraparound.
pub open spec fn integrated_pos(p: Vec2, v: Vec2, dt: i64, w: i64, h: i64) -> Vec2 {
    Vec2 {
        x: spec_wrap(p.x + v.x * dt, w as int) as i64,
        y: spec_wrap(p.y + v.y * dt, h as int) as i64,
    }
}

/// All rocks after one tick of translation and wraparound.
pub open spec fn integrated_rocks(rocks: Seq<crate::state::Rock>, dt: i64, w: i64, h: i64)
    -> Seq<crate::state::Rock> {
    rocks.map_values(
        |r: crate::state::Rock| crate::state::Rock {
            pos: integrated_pos(r.pos, r.vel, dt, w, h),
            vel: r.vel,
        },
    )
}

/// All projectiles after one tick of translation and wraparound.
pub open spec fn integrated_shots(shots: Seq<Shot>, dt: i64, w: i64, h: i64) -> Seq<Shot> {
    shots.map_values(|s: Shot| Shot { pos: integrated_pos(s.pos, s.vel, dt, w, h), ..s })
}

/// All projectiles after one tick of sprite spin.
pub open spec fn spun_shots(shots: Seq<Shot>, dt: i64) -> Seq<Shot> {
    shots.map_values(
        |s: Shot| Shot {
            angle: ((s.angle + SHOT_SPIN_RATE * dt) % (TAU_URAD as int)) as i64,
            ..s
        },
    )
}

/// Advance one position by its velocity over `dt` milliseconds, then wrap
/// it back onto the screen.
pub fn integrate_position(p: Vec2, v: Vec2, dt: i64, width: i64, height: i64) -> (r: Vec2)
    requires
        dims_ok(width as int, height as int),
        in_play_area(p, width as int, height as int),
        vel_bounded(v, VEL_CAP as int),
        0 <= dt <= DT_CAP,
    ensures
        moves_to(p.x as int, v.x as int, dt as int, width as int, r.x as int),
        moves_to(p.y as int, v.y as int, dt as int, height as int, r.y as int),
{
    proof {
        assert(-VEL_CAP * DT_CAP <= v.x * dt <= VEL_CAP * DT_CAP) by (nonlinear_arith)
            requires
                -VEL_CAP <= v.x <= VEL_CAP,
                0 <= dt <= DT_CAP;
        assert(-VEL_CAP * DT_CAP <= v.y * dt <= VEL_CAP * DT_CAP) by (nonlinear_arith)
            requires
                -VEL_CAP <= v.y <= VEL_CAP,
                0 <= dt <= DT_CAP;
    }
    let moved = Vec2 { x: p.x + v.x * dt, y: p.y + v.y * dt };
    wrap_position(moved, width, height)
}

/// One projectile after `dt` milliseconds of lifetime decay, assuming it
/// survives.
pub open spec fn decayed_shot(s: Shot, dt: int) -> Shot {
    Shot { ttl: (s.ttl - dt) as i64, ..s }
}

/// The projectiles that survive `dt` milliseconds of lifetime decay, in
/// order, each with its remaining lifetime reduced: a projectile whose
/// countdown would reach zero or below disappears in this very tick.
pub open spec fn decay_shots(s: Seq<Shot>, dt: int) -> Seq<Shot>
    decreases s.len(),
{
    if s.len() == 0 {
        Seq::empty()
    } else {
        let rest = decay_shots(s.drop_last(), dt);
        if s.last().ttl > dt {
            rest.push(decayed_shot(s.last(), dt))
        } else {
            rest
        }
    }
}

impl GameState {
    /// Move every positioned entity — ship, rocks and projectiles — by its
    /// velocity over `dt` milliseconds and wrap it back onto the screen.
    /// Velocities, orientations and all bookkeeping are untouched.
    pub fn update_positions(&mut self, dt: i64)
        requires
            game_wf(*old(self)),
            0 <= dt <= DT_CAP,
        ensures
            game_wf(*final(self)),
            final(self).ship.pos == integrated_pos(old(self).ship.pos, old(self).ship.vel, dt,
                old(self).width, old(self).height),
            final(self).rocks@ == integrated_rocks(old(self).rocks@, dt, old(self).width,
                old(self).height),
            final(self).shots@ == integrated_shots(old(self).shots@, dt, old(self).width,
                old(self).height),
            moves_to(old(self).ship.pos.x as int, old(self).ship.vel.x as int, dt as int,
                old(self).width as int, final(self).ship.pos.x as int),
            moves_to(old(self).ship.pos.y as int, old(self).ship.vel.y as int, dt as int,
                old(self).height as int, final(self).ship.pos.y as int),
            final(self).ship.vel == old(self).ship.vel,
            final(self).ship.angle == old(self).ship.angle,
            final(self).ship.last_shot == old(self).ship.last_shot,
            final(self).rocks@.len() == old(self).rocks@.len(),
            forall|i: int|
                0 <= i < old(self).rocks@.len() ==> {
                    &&& moves_to((#[trigger] old(self).rocks@[i]).pos.x as int,
                        old(self).rocks@[i].vel.x as int, dt as int,
                        old(self).width as int, final(self).rocks@[i].pos.x as int)
                    &&& moves_to(old(self).rocks@[i].pos.y as int,
                        old(self).rocks@[i].vel.y as int, dt as int,
                        old(self).height as int, final(self).rocks@[i].pos.y as int)
                    &&& final(self).rocks@[i].vel == old(self).rocks@[i].vel
                },
            final(self).shots@.len() == old(self).shots@.len(),
            forall|i: int|
                0 <= i < old(self).shots@.len() ==> {
                    &&& moves_to((#[trigger] old(self).shots@[i]).pos.x as int,
                        old(self).shots@[i].vel.x as int, dt as int,
                        old(self).width as int, final(self).shots@[i].pos.x as int)
                    &&& moves_to(old(self).shots@[i].pos.y as int,
                        old(self).shots@[i].vel.y as int, dt as int,
                        old(self).height as int, final(self).shots@[i].pos.y as int)
                    &&& final(self).shots@[i].vel == old(self).shots@[i].vel
                    &&& final(self).shots@[i].angle == old(self).shots@[i].angle
                    &&& final(self).shots@[i].ttl == old(self).shots@[i].ttl
                },
            final(self).level == old(self).level,
            final(self).kills == old(self).kills,
            final(self).score == old(self).score,
            final(self).phase == old(self).phase,
            final(self).width == old(self).width,
            final(self).height == old(self).height,
    {
        let w = self.width;
        let h = self.height;
        self.ship.pos = integrate_position(self.ship.pos, self.ship.vel, dt, w, h);
        let mut i: usize = 0;
        while i < self.rocks.len()
            invariant
                game_wf(*old(self)),
                0 <= dt <= DT_CAP,
                w == old(self).width,
                h == old(self).height,
                i <= self.rocks@.len(),
                self.rocks@.len() == old(self).rocks@.len(),
                *self == (GameState { rocks: self.rocks, ship: self.ship, ..*old(self) }),
                self.ship.vel == old(self).ship.vel,
                self.ship.angle == old(self).ship.angle,
                self.ship.last_shot == old(self).ship.last_shot,
                ship_wf(self.ship, w as int, h as int),
                moves_to(old(self).ship.pos.x as int, old(self).ship.vel.x as int, dt as int,
                    w as int, self.ship.pos.x as int),
                moves_to(old(self).ship.pos.y as int, old(self).ship.vel.y as int, dt as int,
                    h as int, self.ship.pos.y as int),
                forall|j: int|
                    #![trigger self.rocks@[j]]
                    0 <= j < i ==> {
                        &&& moves_to(old(self).rocks@[j].pos.x as int,
                            old(self).rocks@[j].vel.x as int, dt as int,
                            w as int, self.rocks@[j].pos.x as int)
                        &&& moves_to(old(self).rocks@[j].pos.y as int,
                            old(self).rocks@[j].vel.y as int, dt as int,
                            h as int, self.rocks@[j].pos.y as int)
                        &&& self.rocks@[j].vel == old(self).rocks@[j].vel
                        &&& rock_wf(self.rocks@[j], w as int, h as int)
                    },
                forall|j: int|
                    i <= j < self.rocks@.len() ==> #[trigger] self.rocks@[j]
                        == old(self).rocks@[j],
            decreases self.rocks@.len() - i,
        {
            let rock = self.rocks[i];
            let np = integrate_position(rock.pos, rock.vel, dt, w, h);
            self.rocks[i] = crate::state::Rock { pos: np, vel: rock.vel };
            i = i + 1;
        }
        let mut k: usize = 0;
        while k < self.shots.len()
            invariant
                game_wf(*old(self)),
                0 <= dt <= DT_CAP,
                w == old(self).width,
                h == old(self).height,
                k <= self.shots@.len(),
                self.shots@.len() == old(self).shots@.len(),
                self.rocks@.len() == old(self).rocks@.len(),
                *self == (GameState { rocks: self.rocks, shots: self.shots, ship: self.ship,
                    ..*old(self) }),
                self.ship.vel == old(self).ship.vel,
                self.ship.angle == old(self).ship.angle,
                self.ship.last_shot == old(self).ship.last_shot,
                ship_wf(self.ship, w as int, h as int),
                moves_to(old(self).ship.pos.x as int, old(self).ship.vel.x as int, dt as int,
                    w as int, self.ship.pos.x as int),
                moves_to(old(self).ship.pos.y as int, old(self).ship.vel.y as int, dt as int,
                    h as int, self.ship.pos.y as int),
                forall|j: int|
                    #![trigger self.rocks@[j]]
                    0 <= j < self.rocks@.len() ==> {
                        &&& moves_to(old(self).rocks@[j].pos.x as int,
                            old(self).rocks@[j].vel.x as int, dt as int,
                            w as int, self.rocks@[j].pos.x as int)
                        &&& moves_to(old(self).rocks@[j].pos.y as int,
                            old(self).rocks@[j].vel.y as int, dt as int,
                            h as int, self.rocks@[j].pos.y as int)
                        &&& self.rocks@[j].vel == old(self).rocks@[j].vel
                        &&& rock_wf(self.rocks@[j], w as int, h as int)
                    },
                forall|j: int|
                    #![trigger self.shots@[j]]
                    0 <= j < k ==> {
                        &&& moves_to(old(self).shots@[j].pos.x as int,
                            old(self).shots@[j].vel.x as int, dt as int,
                            w as int, self.shots@[j].pos.x as int)
                        &&& moves_to(old(self).shots@[j].pos.y as int,
                            old(self).shots@[j].vel.y as int, dt as int,
                            h as int, self.shots@[j].pos.y as int)
                        &&& self.shots@[j].vel == old(self).shots@[j].vel
                        &&& self.shots@[j].angle == old(self).shots@[j].angle
                        &&& self.shots@[j].ttl == old(self).shots@[j].ttl
                        &&& shot_wf(self.shots@[j], w as int, h as int)
                    },
                forall|j: int|
                    k <= j < self.shots@.len() ==> #[trigger] self.shots@[j]
                        == old(self).shots@[j],
            decreases self.shots@.len() - k,
        {
            let shot = self.shots[k];
            let np = integrate_position(shot.pos, shot.vel, dt, w, h);
            self.shots[k] = Shot { pos: np, ..shot };
            k = k + 1;
        }
        proof {
            assert(self.ship.pos == integrated_pos(old(self).ship.pos, old(self).ship.vel, dt,
                w, h));
            assert(self.rocks@ =~= integrated_rocks(old(self).rocks@, dt, w, h)) by {
                assert forall|j: int| 0 <= j < self.rocks@.len() implies self.rocks@[j]
                    == integrated_rocks(old(self).rocks@, dt, w, h)[j] by {
                    assert(self.rocks@[j].pos == integrated_pos(old(self).rocks@[j].pos,
                        old(self).rocks@[j].vel, dt, w, h));
                }
            }
            assert(self.shots@ =~= integrated_shots(old(self).shots@, dt, w, h)) by {
                assert forall|j: int| 0 <= j < self.shots@.len() implies self.shots@[j]
                    == integrated_shots(old(self).shots@, dt, w, h)[j] by {
                    assert(self.shots@[j].pos == integrated_pos(old(self).shots@[j].pos,
                        old(self).shots@[j].vel, dt, w, h));
                }
            }
        }
    }

    /// Rotate every projectile's sprite by its fixed angular velocity over
    /// `dt` milliseconds, keeping angles normalized into `[0, TAU_URAD)`.
    pub fn update_spinner_spin(&mut self, dt: i64)
        requires
            game_wf(*old(self)),
            0 <= dt <= DT_CAP,
        ensures
            game_wf(*final(self)),
            final(self).shots@ == spun_shots(old(self).shots@, dt),
            final(self).shots@.len() == old(self).shots@.len(),
            forall|i: int|
                0 <= i < old(self).shots@.len() ==> {
                    &&& (#[trigger] final(self).shots@[i]).angle
                        == (old(self).shots@[i].angle + SHOT_SPIN_RATE * dt) % (TAU_URAD as int)
                    &&& final(self).shots@[i].pos == old(self).shots@[i].pos
                    &&& final(self).shots@[i].vel == old(self).shots@[i].vel
                    &&& final(self).shots@[i].ttl == old(self).shots@[i].ttl
                },
            *final(self) == (GameState { shots: final(self).shots, ..*old(self) }),
    {
        let mut k: usize = 0;
        while k < self.shots.len()
            invariant
                game_wf(*old(self)),
                0 <= dt <= DT_CAP,
                k <= self.shots@.len(),
                self.shots@.len() == old(self).shots@.len(),
                *self == (GameState { shots: self.shots, ..*old(self) }),
                forall|j: int|
                    0 <= j < k ==> {
                        &&& (#[trigger] self.shots@[j]).angle
                            == (old(self).shots@[j].angle + SHOT_SPIN_RATE * dt)
                                % (TAU_URAD as int)
                        &&& self.shots@[j].pos == old(self).shots@[j].pos
                        &&& self.shots@[j].vel == old(self).shots@[j].vel
                        &&& self.shots@[j].ttl == old(self).shots@[j].ttl
                        &&& shot_wf(self.shots@[j], old(self).width as int,
                            old(self).height as int)
                    },
                forall|j: int|
                    k <= j < self.shots@.len() ==> #[trigger] self.shots@[j]
                        == old(self).shots@[j],
            decreases self.shots@.len() - k,
        {
            let shot = self.shots[k];
            proof {
                assert(0 <= SHOT_SPIN_RATE * dt <= SHOT_SPIN_RATE * DT_CAP) by (nonlinear_arith)
                    requires
                        0 <= dt <= DT_CAP;
            }
            let na: i64 = mod_euclid(shot.angle + SHOT_SPIN_RATE * dt, TAU_URAD);
            self.shots[k] = Shot { angle: na, ..shot };
            k = k + 1;
        }
        proof {
            assert(self.shots@ =~= spun_shots(old(self).shots@, dt)) by {
                assert forall|j: int| 0 <= j < self.shots@.len() implies self.shots@[j]
                    == spun_shots(old(self).shots@, dt)[j] by {
                    assert(self.shots@[j].angle == (old(self).shots@[j].angle
                        + SHOT_SPIN_RATE * dt) % (TAU_URAD as int));
                }
            }
        }
    }

    /// Subtract `dt` milliseconds from every projectile's remaining
    /// lifetime; a projectile whose countdown would reach zero or below is
    /// destroyed in this tick.
    pub fn update_shot_ttl(&mut self, dt: i64)
        requires
            game_wf(*old(self)),
            0 <= dt <= DT_CAP,
        ensures
            game_wf(*final(self)),
            final(self).shots@ == decay_shots(old(self).shots@, dt as int),
            *final(self) == (GameState { shots: final(self).shots, ..*old(self) }),
    {
        let mut kept: Vec<Shot> = Vec::new();
        let mut k: usize = 0;
        while k < self.shots.len()
            invariant
                game_wf(*old(self)),
                0 <= dt <= DT_CAP,
                k <= self.shots@.len(),
                *self == *old(self),
                kept@ == decay_shots(self.shots@.take(k as int), dt as int),
                forall|j: int|
                    0 <= j < kept@.len() ==> shot_wf(
                        #[trigger] kept@[j],
                        old(self).width as int,
                        old(self).height as int,
                    ),
            decreases self.shots@.len() - k,
        {
            let shot = self.shots[k];
            proof {
                assert(self.shots@.take(k + 1 as int).drop_last() =~= self.shots@.take(k as int));
                assert(self.shots@.take(k + 1 as int).last() == shot);
            }
            if shot.ttl > dt {
                kept.push(Shot { ttl: shot.ttl - dt, ..shot });
            }
            k = k + 1;
        }
        proof {
            assert(self.shots@.take(self.shots@.len() as int) =~= self.shots@);
        }
        self.shots = kept;
    }
}

} // verus!
