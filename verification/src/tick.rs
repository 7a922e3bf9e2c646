//! One simulation step, wired in the fixed per-tick order: firing and ship
//! control, physics integration, projectile lifetime decay, the three
//! collision passes (rock×rock, then shot×rock, then ship×rock), and the
//! wave controller's clear check.  A defeated run never advances again.

use vstd::prelude::*;
use crate::geom::{Vec2, norm_sq, spec_circles_overlap};
use crate::state::{
    GameState, Ship, Phase, PLAYER_RADIUS, ROCK_RADIUS, EXCLUSION_RADIUS, MAX_ROCK_SPEED,
    LEVEL_CAP, DT_CAP, TIME_CAP, game_wf, on_screen, spec_total_rock_count,
};
use crate::weapon::{
    forward_ok, fire_allowed, fire_result_ship, fire_result_shots, turned_ship, thrust_vel,
};
use crate::physics::{
    integrated_pos, integrated_rocks, integrated_shots, spun_shots, decay_shots,
};
use crate::collision::{spec_rr_from, spec_resolve_shots, play_xlim, play_ylim};

verus! {

/// The per-tick input the host's input collaborator sampled: debounced
/// level signals, not raw device events.
#[derive(Clone, Copy, Debug, PartialEq, Eq, Structural)]
pub struct TickInputs {
    pub turn_left: bool,
    pub turn_right: bool,
    pub thrust: bool,
    pub fire: bool,
}

/// What one tick asks the host's collaborators to do: trigger the shot
/// sound, trigger the impact sound per destroyed rock, redraw the score
/// and level lines, stop ticking.
#[derive(Clone, Copy, Debug, PartialEq, Eq, Structural)]
pub struct TickEvents {
    pub fired: bool,
    pub rocks_destroyed: usize,
    pub wave_spawned: bool,
    pub defeated: bool,
}

impl GameState {
    /// Advance the simulation by one tick of `dt` milliseconds at wall
    /// clock `now`.  `forward` is the ship's forward unit vector in
    /// `FORWARD_SCALE` fixed point; the host computes it from the ship's
    /// orientation after this tick's turn, which it can derive because
    /// turning is deterministic.  In the terminal `Defeated` phase the
    /// state is left completely untouched; in the `Active` phase the new
    /// state is exactly the staged composition spelled out below — turn,
    /// thrust, cooldown-gated fire, integration with wraparound, sprite
    /// spin, lifetime decay, the rock×rock and shot×rock passes, the fatal
    /// ship×rock check, and the wave-clear check — with only the freshly
    /// spawned wave, being random, pinned by what holds of every draw.
    pub fn tick(&mut self, inputs: TickInputs, forward: Vec2, now: i64, dt: i64) -> (ev:
        TickEvents)
        requires
            game_wf(*old(self)),
            forward_ok(forward),
            0 <= dt <= DT_CAP,
            0 <= now <= TIME_CAP,
        ensures
            game_wf(*final(self)),
            old(self).phase == Phase::Defeated ==> *final(self) == *old(self)
                && ev == (TickEvents {
                fired: false,
                rocks_destroyed: 0,
                wave_spawned: false,
                defeated: false,
            }),
            old(self).phase == Phase::Active ==> ({
                let s0 = *old(self);
                let ship1 = turned_ship(s0.ship, inputs.turn_left, inputs.turn_right, dt);
                let ship2 = (Ship {
                    vel: thrust_vel(ship1.vel, inputs.thrust, forward, dt),
                    ..ship1
                });
                let ship3 = fire_result_ship(ship2, inputs.fire, now);
                let shots3 = fire_result_shots(s0.shots@, ship2, inputs.fire, forward, now);
                let ship4 = (Ship {
                    pos: integrated_pos(ship3.pos, ship3.vel, dt, s0.width, s0.height),
                    ..ship3
                });
                let rocks4 = integrated_rocks(s0.rocks@, dt, s0.width, s0.height);
                let shots6 = decay_shots(
                    spun_shots(integrated_shots(shots3, dt, s0.width, s0.height), dt),
                    dt as int,
                );
                let rocks7 = spec_rr_from(rocks4, rocks4, 0, 1, play_xlim(s0), play_ylim(s0));
                let resolved = spec_resolve_shots(shots6, rocks7);
                let lost = exists|i: int|
                    0 <= i < resolved.1.len() && spec_circles_overlap(
                        ship4.pos,
                        PLAYER_RADIUS,
                        (#[trigger] resolved.1[i]).pos,
                        ROCK_RADIUS,
                    );
                &&& ev.fired == (inputs.fire && fire_allowed(s0.ship, now as int))
                &&& ev.rocks_destroyed == resolved.2
                &&& ev.defeated == lost
                &&& ev.wave_spawned == (!lost && s0.kills + resolved.2
                    == spec_total_rock_count(s0.level as int) && s0.level < LEVEL_CAP)
                &&& final(self).ship == ship4
                &&& final(self).shots@ == resolved.0
                &&& final(self).score == s0.score + resolved.2
                &&& final(self).phase == (if lost {
                    Phase::Defeated
                } else {
                    Phase::Active
                })
                &&& !ev.wave_spawned ==> final(self).rocks@ == resolved.1
                    && final(self).level == s0.level
                    && final(self).kills == s0.kills + resolved.2
                &&& ev.wave_spawned ==> final(self).level == s0.level + 1
                    && final(self).kills == 0
                    && final(self).rocks@.len() == spec_total_rock_count(s0.level as int + 1)
                    && (forall|i: int|
                        0 <= i < final(self).rocks@.len() ==> !spec_circles_overlap(
                            (#[trigger] final(self).rocks@[i]).pos,
                            ROCK_RADIUS,
                            ship4.pos,
                            EXCLUSION_RADIUS,
                        ) && on_screen(final(self).rocks@[i].pos, s0.width as int,
                            s0.height as int)
                            && norm_sq(final(self).rocks@[i].vel)
                                < MAX_ROCK_SPEED * MAX_ROCK_SPEED)
            }),
            final(self).width == old(self).width,
            final(self).height == old(self).height,
    {
        if matches!(self.phase, Phase::Defeated) {
            return TickEvents {
                fired: false,
                rocks_destroyed: 0,
                wave_spawned: false,
                defeated: false,
            };
        }
        let ghost s0 = *old(self);
        self.turn_ship(inputs.turn_left, inputs.turn_right, dt);
        proof {
            assert(self.ship == turned_ship(s0.ship, inputs.turn_left, inputs.turn_right, dt));
        }
        self.thrust_ship(inputs.thrust, forward, dt);
        let ghost ship2 = self.ship;
        let fired = self.try_fire(inputs.fire, forward, now);
        let ghost ship3 = self.ship;
        let ghost shots3 = self.shots@;
        proof {
            assert(ship3 == fire_result_ship(ship2, inputs.fire, now));
            assert(shots3 == fire_result_shots(s0.shots@, ship2, inputs.fire, forward, now));
            assert(self.rocks@ == s0.rocks@);
        }
        self.update_positions(dt);
        let ghost ship4 = self.ship;
        let ghost rocks4 = self.rocks@;
        proof {
            assert(ship4 == (Ship {
                pos: integrated_pos(ship3.pos, ship3.vel, dt, s0.width, s0.height),
                ..ship3
            }));
            assert(rocks4 == integrated_rocks(s0.rocks@, dt, s0.width, s0.height));
            assert(self.shots@ == integrated_shots(shots3, dt, s0.width, s0.height));
        }
        self.update_spinner_spin(dt);
        proof {
            assert(self.shots@ == spun_shots(
                integrated_shots(shots3, dt, s0.width, s0.height), dt));
        }
        self.update_shot_ttl(dt);
        let ghost shots6 = self.shots@;
        self.rock_rock_collision();
        let ghost rocks7 = self.rocks@;
        proof {
            assert(rocks7 == spec_rr_from(rocks4, rocks4, 0, 1, play_xlim(s0), play_ylim(s0)));
            assert(self.shots@ == shots6);
        }
        let rocks_destroyed = self.rock_shot_collision();
        let ghost resolved = spec_resolve_shots(shots6, rocks7);
        proof {
            assert(self.shots@ == resolved.0);
            assert(self.rocks@ == resolved.1);
            assert(rocks_destroyed == resolved.2);
            assert(self.ship == ship4);
        }
        self.player_rock_collision();
        let defeated = matches!(self.phase, Phase::Defeated);
        proof {
            assert(defeated == (exists|i: int|
                0 <= i < resolved.1.len() && spec_circles_overlap(
                    ship4.pos,
                    PLAYER_RADIUS,
                    (#[trigger] resolved.1[i]).pos,
                    ROCK_RADIUS,
                )));
        }
        let wave_spawned = if defeated {
            false
        } else {
            self.check_wave_clear()
        };
        TickEvents { fired, rocks_destroyed, wave_spawned, defeated }
    }
}

} // verus!
