//! The collision engine: three pairwise circle-overlap passes with distinct
//! policies — ship×rock ends the run, shot×rock destroys both and scores,
//! rock×rock exchanges velocity along the contact normal and separates the
//! pair.

use vstd::prelude::*;
use crate::geom::{
    Vec2, dist_sq, spec_circles_overlap, circles_overlap, coords_ok, div_trunc,
    spec_clamp, clamp_i64, sqrt_floor, isqrt_floor, lemma_square_bound, lemma_sq_bounds_abs,
    lemma_abs_mul_bound,
};
use crate::state::{
    GameState, Rock, Shot, Phase, PLAYER_RADIUS, ROCK_RADIUS, SHOT_RADIUS, SEPARATION_DIST,
    VEL_CAP, POS_MARGIN, game_wf, rock_wf, shot_wf, vel_bounded,
    cleared_rock_total, lemma_cleared_rock_total_bounds,
};

verus! {

/// The index of the first rock a shot overlaps, if any.
pub open spec fn spec_first_hit(shot: Shot, rocks: Seq<Rock>) -> Option<int>
    decreases rocks.len(),
{
    if rocks.len() == 0 {
        Option::None
    } else if spec_circles_overlap(shot.pos, SHOT_RADIUS, rocks[0].pos, ROCK_RADIUS) {
        Option::Some(0int)
    } else {
        match spec_first_hit(shot, rocks.drop_first()) {
            Option::None => Option::None,
            Option::Some(j) => Option::Some(j + 1),
        }
    }
}

/// What characterizes the first hit: the index overlaps and no earlier one
/// does, or nothing overlaps at all.
pub open spec fn first_hit_props(shot: Shot, rocks: Seq<Rock>, r: Option<int>) -> bool {
    match r {
        Option::None => forall|k: int|
            0 <= k < rocks.len() ==> !spec_circles_overlap(
                shot.pos,
                SHOT_RADIUS,
                (#[trigger] rocks[k]).pos,
                ROCK_RADIUS,
            ),
        Option::Some(j) => {
            &&& 0 <= j < rocks.len()
            &&& spec_circles_overlap(shot.pos, SHOT_RADIUS, rocks[j].pos, ROCK_RADIUS)
            &&& forall|k: int|
                0 <= k < j ==> !spec_circles_overlap(
                    shot.pos,
                    SHOT_RADIUS,
                    (#[trigger] rocks[k]).pos,
                    ROCK_RADIUS,
                )
        },
    }
}

/// The first-hit properties pin `spec_first_hit` down.
pub proof fn lemma_first_hit_from_props(shot: Shot, rocks: Seq<Rock>, r: Option<int>)
    requires
        first_hit_props(shot, rocks, r),
    ensures
        spec_first_hit(shot, rocks) == r,
    decreases rocks.len(),
{
    if rocks.len() == 0 {
    } else if spec_circles_overlap(shot.pos, SHOT_RADIUS, rocks[0].pos, ROCK_RADIUS) {
        match r {
            Option::None => {
                assert(!spec_circles_overlap(shot.pos, SHOT_RADIUS, rocks[0].pos, ROCK_RADIUS));
            },
            Option::Some(j) => {
                if j != 0 {
                    assert(!spec_circles_overlap(
                        shot.pos, SHOT_RADIUS, rocks[0].pos, ROCK_RADIUS));
                }
            },
        }
    } else {
        let rest = rocks.drop_first();
        match r {
            Option::None => {
                assert forall|k: int| 0 <= k < rest.len() implies !spec_circles_overlap(
                    shot.pos, SHOT_RADIUS, (#[trigger] rest[k]).pos, ROCK_RADIUS) by {
                    assert(rest[k] == rocks[k + 1]);
                }
                lemma_first_hit_from_props(shot, rest, Option::None);
            },
            Option::Some(j) => {
                assert(j != 0);
                assert(rest[j - 1] == rocks[j]);
                assert forall|k: int| 0 <= k < j - 1 implies !spec_circles_overlap(
                    shot.pos, SHOT_RADIUS, (#[trigger] rest[k]).pos, ROCK_RADIUS) by {
                    assert(rest[k] == rocks[k + 1]);
                }
                lemma_first_hit_from_props(shot, rest, Option::Some(j - 1));
            },
        }
    }
}

/// The shot×rock pass over a snapshot: each shot, in order, destroys the
/// first rock it overlaps (both disappear); a shot that hits nothing is
/// kept.  The result is the surviving shots, the surviving rocks, and the
/// number of destroyed pairs.
pub open spec fn spec_resolve_shots(shots: Seq<Shot>, rocks: Seq<Rock>) -> (Seq<Shot>, Seq<
    Rock,
>, int)
    decreases shots.len(),
{
    if shots.len() == 0 {
        (Seq::<Shot>::empty(), rocks, 0int)
    } else {
        match spec_first_hit(shots[0], rocks) {
            Option::None => {
                let rest = spec_resolve_shots(shots.drop_first(), rocks);
                (seq![shots[0]] + rest.0, rest.1, rest.2)
            },
            Option::Some(j) => {
                let rest = spec_resolve_shots(shots.drop_first(), rocks.remove(j));
                (rest.0, rest.1, rest.2 + 1)
            },
        }
    }
}

/// Every shot is either kept or destroyed with exactly one rock.
pub proof fn lemma_resolve_shots_counts(shots: Seq<Shot>, rocks: Seq<Rock>)
    ensures
        ({
            let r = spec_resolve_shots(shots, rocks);
            &&& r.2 >= 0
            &&& r.0.len() + r.2 == shots.len()
            &&& r.1.len() + r.2 == rocks.len()
        }),
    decreases shots.len(),
{
    if shots.len() > 0 {
        match spec_first_hit(shots[0], rocks) {
            Option::None => {
                lemma_resolve_shots_counts(shots.drop_first(), rocks);
            },
            Option::Some(j) => {
                lemma_first_hit_in_range(shots[0], rocks);
                lemma_resolve_shots_counts(shots.drop_first(), rocks.remove(j));
            },
        }
    }
}

/// A first hit, when there is one, indexes into the rocks.
pub proof fn lemma_first_hit_in_range(shot: Shot, rocks: Seq<Rock>)
    ensures
        match spec_first_hit(shot, rocks) {
            Option::None => true,
            Option::Some(j) => 0 <= j < rocks.len(),
        },
    decreases rocks.len(),
{
    if rocks.len() > 0 && !spec_circles_overlap(shot.pos, SHOT_RADIUS, rocks[0].pos,
        ROCK_RADIUS) {
        lemma_first_hit_in_range(shot, rocks.drop_first());
    }
}

/// Map an executable index option into the spec one.
pub open spec fn opt_as_int(r: Option<usize>) -> Option<int> {
    match r {
        Option::None => Option::None,
        Option::Some(j) => Option::Some(j as int),
    }
}

/// Find the first rock the shot overlaps, scanning in index order.
fn find_first_hit(shot: &Shot, rocks: &Vec<Rock>) -> (r: Option<usize>)
    requires
        coords_ok(shot.pos),
        forall|k: int| 0 <= k < rocks@.len() ==> coords_ok((#[trigger] rocks@[k]).pos),
    ensures
        first_hit_props(*shot, rocks@, opt_as_int(r)),
{
    let mut k: usize = 0;
    while k < rocks.len()
        invariant
            k <= rocks@.len(),
            coords_ok(shot.pos),
            forall|j: int| 0 <= j < rocks@.len() ==> coords_ok((#[trigger] rocks@[j]).pos),
            forall|j: int|
                0 <= j < k ==> !spec_circles_overlap(
                    shot.pos,
                    SHOT_RADIUS,
                    (#[trigger] rocks@[j]).pos,
                    ROCK_RADIUS,
                ),
        decreases rocks@.len() - k,
    {
        if circles_overlap(shot.pos, SHOT_RADIUS, rocks[k].pos, ROCK_RADIUS) {
            return Some(k);
        }
        k = k + 1;
    }
    None
}

/// The pair's relative velocity projected on the unscaled contact normal
/// `posA - posB`: the numerator of the along-normal exchange.
pub open spec fn rr_t(a: Rock, b: Rock) -> int {
    let dx = a.pos.x - b.pos.x;
    let dy = a.pos.y - b.pos.y;
    (b.vel.x * dx + b.vel.y * dy) - (a.vel.x * dx + a.vel.y * dy)
}

/// The x component of the velocity exchanged along the contact normal.
pub open spec fn rr_dv_x(a: Rock, b: Rock) -> int {
    let dx = a.pos.x - b.pos.x;
    div_trunc(rr_t(a, b) * dx, dist_sq(a.pos, b.pos))
}

/// The y component of the velocity exchanged along the contact normal.
pub open spec fn rr_dv_y(a: Rock, b: Rock) -> int {
    let dy = a.pos.y - b.pos.y;
    div_trunc(rr_t(a, b) * dy, dist_sq(a.pos, b.pos))
}

/// The separation factor: scaling the center difference by it pushes the
/// two centers at least `SEPARATION_DIST` apart.
pub open spec fn rr_sep_k(a: Rock, b: Rock) -> int {
    SEPARATION_DIST as int / (2 * sqrt_floor(dist_sq(a.pos, b.pos) as nat) as int) + 1
}

/// Whether a snapshot pair collides this tick: overlapping circles whose
/// centers differ (coincident centers leave the normal undefined, so that
/// degenerate pair is skipped rather than resolved).
pub open spec fn rr_pair_collides(a: Rock, b: Rock) -> bool {
    a.pos != b.pos && spec_circles_overlap(a.pos, ROCK_RADIUS, b.pos, ROCK_RADIUS)
}

/// The elastic response of one colliding pair, computed from the snapshot:
/// the along-normal velocity components are exchanged (then safety-clamped
/// per component), and the two centers are pushed apart along the normal
/// (then clamped into the play area).
pub open spec fn rr_pair_result(a: Rock, b: Rock, xlim: int, ylim: int) -> (Rock, Rock)
    recommends
        a.pos != b.pos,
{
    let dx = a.pos.x - b.pos.x;
    let dy = a.pos.y - b.pos.y;
    let dvx = rr_dv_x(a, b);
    let dvy = rr_dv_y(a, b);
    let k = rr_sep_k(a, b);
    (Rock {
        pos: Vec2 {
            x: spec_clamp(a.pos.x + dx * k, xlim) as i64,
            y: spec_clamp(a.pos.y + dy * k, ylim) as i64,
        },
        vel: Vec2 {
            x: spec_clamp(a.vel.x + dvx, VEL_CAP as int) as i64,
            y: spec_clamp(a.vel.y + dvy, VEL_CAP as int) as i64,
        },
    }, Rock {
        pos: Vec2 {
            x: spec_clamp(b.pos.x - dx * k, xlim) as i64,
            y: spec_clamp(b.pos.y - dy * k, ylim) as i64,
        },
        vel: Vec2 {
            x: spec_clamp(b.vel.x - dvx, VEL_CAP as int) as i64,
            y: spec_clamp(b.vel.y - dvy, VEL_CAP as int) as i64,
        },
    })
}

/// The rock×rock pass from pair `(i, j)` on: every unordered pair of the
/// snapshot is tested once, in index order, each response is computed from
/// the snapshot alone, and later writes to the same rock overwrite earlier
/// ones.
pub open spec fn spec_rr_from(
    snap: Seq<Rock>,
    cur: Seq<Rock>,
    i: int,
    j: int,
    xlim: int,
    ylim: int,
) -> Seq<Rock>
    recommends
        snap.len() == cur.len(),
        0 <= i,
        i < j,
    decreases snap.len() - i, snap.len() - j,
{
    if i + 1 >= snap.len() {
        cur
    } else if j >= snap.len() {
        spec_rr_from(snap, cur, i + 1, i + 2, xlim, ylim)
    } else {
        let cur2 = if rr_pair_collides(snap[i], snap[j]) {
            let res = rr_pair_result(snap[i], snap[j], xlim, ylim);
            cur.update(i, res.0).update(j, res.1)
        } else {
            cur
        };
        spec_rr_from(snap, cur2, i, j + 1, xlim, ylim)
    }
}

/// Half the play-area width a position may occupy, the clamp bound of the
/// separation step.
pub open spec fn play_xlim(g: GameState) -> int {
    g.width as int / 2 + POS_MARGIN
}

/// Half the play-area height a position may occupy.
pub open spec fn play_ylim(g: GameState) -> int {
    g.height as int / 2 + POS_MARGIN
}

/// The elastic exchange conserves the kinetic state projected on the
/// contact normal: when the exchange numerator divides evenly (so the one
/// truncating division is exact) and no safety clamp engages, the two
/// post-collision velocities carry each other's along-normal components
/// while both tangential components are unchanged — a swap, not an
/// absorption — so the total kinetic energy projected on the normal is
/// conserved.  An input where the division rounds, such as two unit-speed
/// rocks at an oblique offset, trades a bounded rounding remainder instead
/// (`lemma_elastic_exchange_bounded`).
pub proof fn lemma_elastic_exchange(a: Rock, b: Rock, xlim: int, ylim: int)
    requires
        a.pos != b.pos,
        rr_t(a, b) % dist_sq(a.pos, b.pos) == 0,
        -VEL_CAP <= a.vel.x + rr_dv_x(a, b) <= VEL_CAP,
        -VEL_CAP <= a.vel.y + rr_dv_y(a, b) <= VEL_CAP,
        -VEL_CAP <= b.vel.x - rr_dv_x(a, b) <= VEL_CAP,
        -VEL_CAP <= b.vel.y - rr_dv_y(a, b) <= VEL_CAP,
        xlim >= 0,
        ylim >= 0,
    ensures
        ({
            let dx = a.pos.x - b.pos.x;
            let dy = a.pos.y - b.pos.y;
            let va = rr_pair_result(a, b, xlim, ylim).0.vel;
            let vb = rr_pair_result(a, b, xlim, ylim).1.vel;
            &&& va.x * dx + va.y * dy == b.vel.x * dx + b.vel.y * dy
            &&& vb.x * dx + vb.y * dy == a.vel.x * dx + a.vel.y * dy
            &&& va.x * (-dy) + va.y * dx == a.vel.x * (-dy) + a.vel.y * dx
            &&& vb.x * (-dy) + vb.y * dx == b.vel.x * (-dy) + b.vel.y * dx
            &&& (va.x * dx + va.y * dy) * (va.x * dx + va.y * dy)
                + (vb.x * dx + vb.y * dy) * (vb.x * dx + vb.y * dy)
                == (a.vel.x * dx + a.vel.y * dy) * (a.vel.x * dx + a.vel.y * dy)
                + (b.vel.x * dx + b.vel.y * dy) * (b.vel.x * dx + b.vel.y * dy)
        }),
{
    let dx = a.pos.x - b.pos.x;
    let dy = a.pos.y - b.pos.y;
    let dd = dist_sq(a.pos, b.pos);
    let t = rr_t(a, b);
    assert(dx != 0 || dy != 0);
    assert(dd >= 1) by (nonlinear_arith)
        requires
            dd == dx * dx + dy * dy,
            dx != 0 || dy != 0;
    vstd::arithmetic::div_mod::lemma_fundamental_div_mod(t, dd);
    let q = t / dd;
    assert(t == q * dd) by {
        vstd::arithmetic::mul::lemma_mul_is_commutative(dd, q);
    }
    assert(t * dx == (q * dx) * dd) by (nonlinear_arith)
        requires
            t == q * dd;
    assert(t * dy == (q * dy) * dd) by (nonlinear_arith)
        requires
            t == q * dd;
    crate::geom::lemma_div_trunc_multiple(q * dx, dd);
    crate::geom::lemma_div_trunc_multiple(q * dy, dd);
    assert(rr_dv_x(a, b) == q * dx);
    assert(rr_dv_y(a, b) == q * dy);
    let va = rr_pair_result(a, b, xlim, ylim).0.vel;
    let vb = rr_pair_result(a, b, xlim, ylim).1.vel;
    assert(va.x == a.vel.x + q * dx && va.y == a.vel.y + q * dy);
    assert(vb.x == b.vel.x - q * dx && vb.y == b.vel.y - q * dy);
    assert((a.vel.x + q * dx) * dx + (a.vel.y + q * dy) * dy == b.vel.x * dx + b.vel.y * dy)
        by (nonlinear_arith)
        requires
            (b.vel.x * dx + b.vel.y * dy) - (a.vel.x * dx + a.vel.y * dy) == q * (dx * dx + dy
                * dy);
    assert((b.vel.x - q * dx) * dx + (b.vel.y - q * dy) * dy == a.vel.x * dx + a.vel.y * dy)
        by (nonlinear_arith)
        requires
            (b.vel.x * dx + b.vel.y * dy) - (a.vel.x * dx + a.vel.y * dy) == q * (dx * dx + dy
                * dy);
    assert((a.vel.x + q * dx) * (-dy) + (a.vel.y + q * dy) * dx == a.vel.x * (-dy) + a.vel.y
        * dx) by (nonlinear_arith);
    assert((b.vel.x - q * dx) * (-dy) + (b.vel.y - q * dy) * dx == b.vel.x * (-dy) + b.vel.y
        * dx) by (nonlinear_arith);
}

/// The elastic exchange on arbitrary colliding pairs, with its rounding
/// accounted for: whenever no safety clamp engages, each post-collision
/// along-normal component (projected on the unscaled normal `posA - posB`)
/// equals the other rock's pre-collision one, and each tangential
/// component its own, up to an error below `|dx| + |dy|` — vanishingly
/// small next to the projections themselves, whose scale is the normal's
/// length times the speed.  The one truncating division per axis is the
/// only source of the error; `lemma_elastic_exchange` shows it is zero
/// when that division is exact.
pub proof fn lemma_elastic_exchange_bounded(a: Rock, b: Rock, xlim: int, ylim: int)
    requires
        a.pos != b.pos,
        -VEL_CAP <= a.vel.x + rr_dv_x(a, b) <= VEL_CAP,
        -VEL_CAP <= a.vel.y + rr_dv_y(a, b) <= VEL_CAP,
        -VEL_CAP <= b.vel.x - rr_dv_x(a, b) <= VEL_CAP,
        -VEL_CAP <= b.vel.y - rr_dv_y(a, b) <= VEL_CAP,
        xlim >= 0,
        ylim >= 0,
    ensures
        ({
            let dx = a.pos.x - b.pos.x;
            let dy = a.pos.y - b.pos.y;
            let err = (if dx >= 0 { dx } else { -dx }) + (if dy >= 0 { dy } else { -dy });
            let va = rr_pair_result(a, b, xlim, ylim).0.vel;
            let vb = rr_pair_result(a, b, xlim, ylim).1.vel;
            &&& -err <= (va.x * dx + va.y * dy) - (b.vel.x * dx + b.vel.y * dy) <= err
            &&& -err <= (vb.x * dx + vb.y * dy) - (a.vel.x * dx + a.vel.y * dy) <= err
            &&& -err <= (va.x * (-dy) + va.y * dx) - (a.vel.x * (-dy) + a.vel.y * dx) <= err
            &&& -err <= (vb.x * (-dy) + vb.y * dx) - (b.vel.x * (-dy) + b.vel.y * dx) <= err
        }),
{
    let dx = a.pos.x - b.pos.x;
    let dy = a.pos.y - b.pos.y;
    let adx = if dx >= 0 { dx as int } else { -dx };
    let ady = if dy >= 0 { dy as int } else { -dy };
    let err = adx + ady;
    let dd = dist_sq(a.pos, b.pos);
    let t = rr_t(a, b);
    assert(dx != 0 || dy != 0);
    assert(dd >= 1) by (nonlinear_arith)
        requires
            dd == dx * dx + dy * dy,
            dx != 0 || dy != 0;
    let qx = rr_dv_x(a, b);
    let qy = rr_dv_y(a, b);
    crate::geom::lemma_div_trunc_remainder(t * dx, dd);
    crate::geom::lemma_div_trunc_remainder(t * dy, dd);
    let rx = t * dx - qx * dd;
    let ry = t * dy - qy * dd;
    let va = rr_pair_result(a, b, xlim, ylim).0.vel;
    let vb = rr_pair_result(a, b, xlim, ylim).1.vel;
    assert(va.x == a.vel.x + qx && va.y == a.vel.y + qy);
    assert(vb.x == b.vel.x - qx && vb.y == b.vel.y - qy);
    let na = (va.x * dx + va.y * dy) - (b.vel.x * dx + b.vel.y * dy);
    let nb = (vb.x * dx + vb.y * dy) - (a.vel.x * dx + a.vel.y * dy);
    let ta = (va.x * (-dy) + va.y * dx) - (a.vel.x * (-dy) + a.vel.y * dx);
    let tb = (vb.x * (-dy) + vb.y * dx) - (b.vel.x * (-dy) + b.vel.y * dx);
    assert(na == (qx * dx + qy * dy) - t && nb == t - (qx * dx + qy * dy)) by (nonlinear_arith)
        requires
            na == (va.x * dx + va.y * dy) - (b.vel.x * dx + b.vel.y * dy),
            nb == (vb.x * dx + vb.y * dy) - (a.vel.x * dx + a.vel.y * dy),
            va.x == a.vel.x + qx,
            va.y == a.vel.y + qy,
            vb.x == b.vel.x - qx,
            vb.y == b.vel.y - qy,
            t == (b.vel.x * dx + b.vel.y * dy) - (a.vel.x * dx + a.vel.y * dy);
    assert(nb == -na);
    assert(na * dd == -(rx * dx + ry * dy)) by (nonlinear_arith)
        requires
            na == (qx * dx + qy * dy) - t,
            rx == t * dx - qx * dd,
            ry == t * dy - qy * dd,
            dd == dx * dx + dy * dy;
    assert(ta == qx * (-dy) + qy * dx && tb == qx * dy - qy * dx) by (nonlinear_arith)
        requires
            ta == (va.x * (-dy) + va.y * dx) - (a.vel.x * (-dy) + a.vel.y * dx),
            tb == (vb.x * (-dy) + vb.y * dx) - (b.vel.x * (-dy) + b.vel.y * dx),
            va.x == a.vel.x + qx,
            va.y == a.vel.y + qy,
            vb.x == b.vel.x - qx,
            vb.y == b.vel.y - qy;
    assert(tb == -ta) by (nonlinear_arith)
        requires
            ta == qx * (-dy) + qy * dx,
            tb == qx * dy - qy * dx;
    assert(ta * dd == rx * dy - ry * dx) by (nonlinear_arith)
        requires
            ta == qx * (-dy) + qy * dx,
            rx == t * dx - qx * dd,
            ry == t * dy - qy * dd;
    assert(-(dd * err) <= -(rx * dx + ry * dy) <= dd * err && -(dd * err) <= rx * dy - ry * dx
        <= dd * err) by (nonlinear_arith)
        requires
            -dd <= rx <= dd,
            -dd <= ry <= dd,
            -adx <= dx <= adx,
            -ady <= dy <= ady,
            err == adx + ady,
            0 <= adx,
            0 <= ady,
            dd >= 1;
    assert(-err <= na <= err) by (nonlinear_arith)
        requires
            -(dd * err) <= na * dd <= dd * err,
            dd >= 1,
            err >= 0;
    assert(-err <= ta <= err) by (nonlinear_arith)
        requires
            -(dd * err) <= ta * dd <= dd * err,
            dd >= 1,
            err >= 0;
}

/// The separation step works: where the play-area clamp does not engage,
/// the two centers of a resolved pair end up more than `SEPARATION_DIST`
/// apart, so the same intersecting pair cannot re-trigger from rest on the
/// following tick.
pub proof fn lemma_separation_distance(a: Rock, b: Rock, xlim: int, ylim: int)
    requires
        a.pos != b.pos,
        0 <= xlim <= i64::MAX,
        0 <= ylim <= i64::MAX,
        ({
            let dx = a.pos.x - b.pos.x;
            let dy = a.pos.y - b.pos.y;
            let k = rr_sep_k(a, b);
            &&& -xlim <= a.pos.x + dx * k <= xlim
            &&& -ylim <= a.pos.y + dy * k <= ylim
            &&& -xlim <= b.pos.x - dx * k <= xlim
            &&& -ylim <= b.pos.y - dy * k <= ylim
        }),
    ensures
        dist_sq(rr_pair_result(a, b, xlim, ylim).0.pos, rr_pair_result(a, b, xlim, ylim).1.pos)
            >= SEPARATION_DIST * SEPARATION_DIST,
{
    let dx = a.pos.x - b.pos.x;
    let dy = a.pos.y - b.pos.y;
    let dd = dist_sq(a.pos, b.pos);
    assert(dx != 0 || dy != 0);
    assert(dd >= 1) by (nonlinear_arith)
        requires
            dd == dx * dx + dy * dy,
            dx != 0 || dy != 0;
    let l = crate::geom::sqrt_floor(dd as nat) as int;
    crate::geom::lemma_sqrt_floor_props(dd as nat);
    if l == 0 {
        assert((l + 1) * (l + 1) == 1) by (nonlinear_arith)
            requires
                l == 0;
    }
    assert(l >= 1);
    let q = SEPARATION_DIST as int / (2 * l);
    vstd::arithmetic::div_mod::lemma_fundamental_div_mod(SEPARATION_DIST as int, 2 * l);
    vstd::arithmetic::div_mod::lemma_mod_bound(SEPARATION_DIST as int, 2 * l);
    assert(2 * q * l >= SEPARATION_DIST - 2 * l + 1) by (nonlinear_arith)
        requires
            SEPARATION_DIST as int == (2 * l) * q + SEPARATION_DIST as int % (2 * l),
            0 <= SEPARATION_DIST as int % (2 * l) < 2 * l;
    let k = q + 1;
    assert(k == rr_sep_k(a, b));
    let p1x = a.pos.x + dx * k;
    let p1y = a.pos.y + dy * k;
    let p2x = b.pos.x - dx * k;
    let p2y = b.pos.y - dy * k;
    let r0 = rr_pair_result(a, b, xlim, ylim).0;
    let r1 = rr_pair_result(a, b, xlim, ylim).1;
    assert(spec_clamp(p1x, xlim) == p1x && spec_clamp(p1y, ylim) == p1y);
    assert(spec_clamp(p2x, xlim) == p2x && spec_clamp(p2y, ylim) == p2y);
    assert(r0.pos.x == p1x && r0.pos.y == p1y && r1.pos.x == p2x && r1.pos.y == p2y);
    assert(p1x - p2x == dx * (2 * q + 3) && p1y - p2y == dy * (2 * q + 3)) by (nonlinear_arith)
        requires
            p1x == a.pos.x + dx * k,
            p2x == b.pos.x - dx * k,
            p1y == a.pos.y + dy * k,
            p2y == b.pos.y - dy * k,
            dx == a.pos.x - b.pos.x,
            dy == a.pos.y - b.pos.y,
            k == q + 1;
    let m = 2 * q + 3;
    assert((dx * m) * (dx * m) + (dy * m) * (dy * m) == (m * m) * dd) by (nonlinear_arith)
        requires
            dd == dx * dx + dy * dy;
    assert((m * m) * dd >= (m * l) * (m * l)) by (nonlinear_arith)
        requires
            l * l <= dd,
            m >= 1,
            l >= 1;
    assert(m * l >= SEPARATION_DIST + l + 1) by (nonlinear_arith)
        requires
            m == 2 * q + 3,
            2 * q * l >= SEPARATION_DIST - 2 * l + 1,
            l >= 1;
    assert((m * l) * (m * l) >= SEPARATION_DIST * SEPARATION_DIST) by (nonlinear_arith)
        requires
            m * l >= SEPARATION_DIST + l + 1,
            l >= 1,
            SEPARATION_DIST > 0;
}

/// One truncating division of a product, `(t * dc) / dd`, computed through
/// unsigned 128-bit arithmetic; `mb` bounds the normal's components and
/// `tb` the quotient.
fn rr_delta(t: i64, dc: i64, dd: i64, tb: i64, mb: i64) -> (r: i64)
    requires
        1 <= dd <= 0x4000_0000_0000_0000,
        0 <= mb,
        -mb <= dc <= mb,
        mb * mb <= dd,
        0 <= tb <= 0x7fff_ffff,
        -(tb * mb) <= t <= tb * mb,
    ensures
        r == div_trunc(t * dc, dd as int),
        -tb <= r <= tb,
{
    proof {
        lemma_sq_bounds_abs(mb as int, 0x8000_0000);
        assert(mb * mb <= 0x8000_0000 * 0x8000_0000) by (nonlinear_arith)
            requires
                mb * mb <= 0x4000_0000_0000_0000int;
        assert(tb * mb <= 0x7fff_ffff * 0x8000_0000) by (nonlinear_arith)
            requires
                0 <= tb <= 0x7fff_ffff,
                0 <= mb <= 0x8000_0000;
    }
    let t_abs: u64 = if t >= 0 {
        t as u64
    } else {
        (-t) as u64
    };
    let d_abs: u64 = if dc >= 0 {
        dc as u64
    } else {
        (-dc) as u64
    };
    proof {
        lemma_abs_mul_bound(t_abs as int, d_abs as int, 0x4000_0000_0000_0000, 0x8000_0000);
    }
    let num: u128 = (t_abs as u128) * (d_abs as u128);
    proof {
        assert(num <= (tb as int) * (dd as int)) by (nonlinear_arith)
            requires
                num == (t_abs as int) * (d_abs as int),
                0 <= t_abs as int <= tb * mb,
                0 <= d_abs as int <= mb,
                mb * mb <= dd,
                0 <= tb,
                0 <= mb;
    }
    let q: u128 = num / (dd as u128);
    proof {
        vstd::arithmetic::div_mod::lemma_div_is_ordered(num as int, tb * dd, dd as int);
        vstd::arithmetic::mul::lemma_mul_nonnegative(tb as int, dd as int);
        vstd::arithmetic::mul::lemma_mul_is_commutative(tb as int, dd as int);
        vstd::arithmetic::div_mod::lemma_fundamental_div_mod_converse(
            tb * dd, dd as int, tb as int, 0);
        assert(q <= tb);
    }
    let negative: bool = (t < 0) != (dc < 0);
    proof {
        if t >= 0 && dc >= 0 {
            assert((t_abs as int) * (d_abs as int) == t * dc);
        } else if t >= 0 && dc < 0 {
            vstd::arithmetic::mul::lemma_mul_unary_negation(dc as int, t as int);
            assert((t_abs as int) * (d_abs as int) == -(t * dc)) by (nonlinear_arith)
                requires
                    t_abs == t,
                    d_abs == -dc,
                    t >= 0;
        } else if t < 0 && dc >= 0 {
            assert((t_abs as int) * (d_abs as int) == -(t * dc)) by (nonlinear_arith)
                requires
                    t_abs == -t,
                    d_abs == dc,
                    dc >= 0;
        } else {
            assert((t_abs as int) * (d_abs as int) == t * dc) by (nonlinear_arith)
                requires
                    t_abs == -t,
                    d_abs == -dc;
        }
    }
    if negative {
        proof {
            assert(t * dc <= 0) by (nonlinear_arith)
                requires
                    (t < 0 && dc >= 0) || (t >= 0 && dc < 0);
            if t * dc == 0 {
                assert(num == 0);
                vstd::arithmetic::div_mod::lemma_fundamental_div_mod_converse(
                    0, dd as int, 0, 0);
            }
        }
        -(q as i64)
    } else {
        proof {
            assert(t * dc >= 0) by (nonlinear_arith)
                requires
                    (t >= 0 && dc >= 0) || (t < 0 && dc < 0);
        }
        q as i64
    }
}

/// The elastic response of one colliding pair.
fn resolve_rock_pair(a: Rock, b: Rock, xlim: i64, ylim: i64) -> (res: (Rock, Rock))
    requires
        vel_bounded(a.vel, VEL_CAP as int),
        vel_bounded(b.vel, VEL_CAP as int),
        a.pos != b.pos,
        spec_circles_overlap(a.pos, ROCK_RADIUS, b.pos, ROCK_RADIUS),
        0 <= xlim <= 0x1_0000_0000_0000,
        0 <= ylim <= 0x1_0000_0000_0000,
        -xlim <= a.pos.x <= xlim,
        -ylim <= a.pos.y <= ylim,
        -xlim <= b.pos.x <= xlim,
        -ylim <= b.pos.y <= ylim,
    ensures
        res == rr_pair_result(a, b, xlim as int, ylim as int),
        vel_bounded(res.0.vel, VEL_CAP as int),
        vel_bounded(res.1.vel, VEL_CAP as int),
        -xlim <= res.0.pos.x <= xlim,
        -ylim <= res.0.pos.y <= ylim,
        -xlim <= res.1.pos.x <= xlim,
        -ylim <= res.1.pos.y <= ylim,
{
    let dx: i64 = a.pos.x - b.pos.x;
    let dy: i64 = a.pos.y - b.pos.y;
    proof {
        lemma_square_bound(dx as int, 2 * 0x1_0000_0000_0000int);
        lemma_square_bound(dy as int, 2 * 0x1_0000_0000_0000int);
        assert(dx * dx + dy * dy < (ROCK_RADIUS + ROCK_RADIUS) * (ROCK_RADIUS + ROCK_RADIUS));
        lemma_sq_bounds_abs(dx as int, 2 * ROCK_RADIUS as int);
        lemma_sq_bounds_abs(dy as int, 2 * ROCK_RADIUS as int);
        if dx == 0 && dy == 0 {
            assert(a.pos == b.pos);
        }
        assert(dx != 0 ==> dx * dx >= 1) by (nonlinear_arith);
        assert(dy != 0 ==> dy * dy >= 1) by (nonlinear_arith);
        lemma_square_bound(dx as int, 2 * ROCK_RADIUS as int);
        lemma_square_bound(dy as int, 2 * ROCK_RADIUS as int);
    }
    let dd: i64 = dx * dx + dy * dy;
    proof {
        lemma_abs_mul_bound(a.vel.x as int, dx as int, VEL_CAP as int, 2 * ROCK_RADIUS as int);
        lemma_abs_mul_bound(a.vel.y as int, dy as int, VEL_CAP as int, 2 * ROCK_RADIUS as int);
        lemma_abs_mul_bound(b.vel.x as int, dx as int, VEL_CAP as int, 2 * ROCK_RADIUS as int);
        lemma_abs_mul_bound(b.vel.y as int, dy as int, VEL_CAP as int, 2 * ROCK_RADIUS as int);
    }
    let a_dot: i64 = a.vel.x * dx + a.vel.y * dy;
    let b_dot: i64 = b.vel.x * dx + b.vel.y * dy;
    let t: i64 = b_dot - a_dot;
    let ax: i64 = if dx >= 0 { dx } else { -dx };
    let ay: i64 = if dy >= 0 { dy } else { -dy };
    let mb: i64 = if ax >= ay { ax } else { ay };
    proof {
        assert(mb * mb <= dd) by (nonlinear_arith)
            requires
                dd == dx * dx + dy * dy,
                (mb == dx || mb == -dx || mb == dy || mb == -dy),
                mb >= dx && mb >= -dx && mb >= dy && mb >= -dy,
                mb >= 0;
        assert(-(4 * VEL_CAP * mb) <= t <= 4 * VEL_CAP * mb) by (nonlinear_arith)
            requires
                t == b_dot - a_dot,
                a_dot == a.vel.x * dx + a.vel.y * dy,
                b_dot == b.vel.x * dx + b.vel.y * dy,
                -VEL_CAP <= a.vel.x <= VEL_CAP,
                -VEL_CAP <= a.vel.y <= VEL_CAP,
                -VEL_CAP <= b.vel.x <= VEL_CAP,
                -VEL_CAP <= b.vel.y <= VEL_CAP,
                -mb <= dx <= mb,
                -mb <= dy <= mb,
                0 <= mb;
    }
    let dvx: i64 = rr_delta(t, dx, dd, 4 * VEL_CAP, mb);
    let dvy: i64 = rr_delta(t, dy, dd, 4 * VEL_CAP, mb);
    let l: u64 = isqrt_floor(dd as u64);
    proof {
        if l == 0 {
            assert((l as int + 1) * (l as int + 1) == 1) by (nonlinear_arith)
                requires
                    l == 0u64;
        }
        assert(l >= 1);
        vstd::arithmetic::div_mod::lemma_div_is_ordered_by_denominator(
            SEPARATION_DIST as int, 2, 2 * l as int);
    }
    let k: i64 = ((SEPARATION_DIST as u64) / (2 * l) + 1) as i64;
    proof {
        assert(k == rr_sep_k(a, b));
        lemma_abs_mul_bound(dx as int, k as int, 2 * ROCK_RADIUS as int,
            SEPARATION_DIST as int / 2 + 1);
        lemma_abs_mul_bound(dy as int, k as int, 2 * ROCK_RADIUS as int,
            SEPARATION_DIST as int / 2 + 1);
    }
    let r1 = Rock {
        pos: Vec2 {
            x: clamp_i64(a.pos.x + dx * k, xlim),
            y: clamp_i64(a.pos.y + dy * k, ylim),
        },
        vel: Vec2 {
            x: clamp_i64(a.vel.x + dvx, VEL_CAP),
            y: clamp_i64(a.vel.y + dvy, VEL_CAP),
        },
    };
    let r2 = Rock {
        pos: Vec2 {
            x: clamp_i64(b.pos.x - dx * k, xlim),
            y: clamp_i64(b.pos.y - dy * k, ylim),
        },
        vel: Vec2 {
            x: clamp_i64(b.vel.x - dvx, VEL_CAP),
            y: clamp_i64(b.vel.y - dvy, VEL_CAP),
        },
    };
    (r1, r2)
}

impl GameState {
    /// The rock×rock pass: every unordered pair of live rocks is tested
    /// once against the snapshot taken at entry; each overlapping pair with
    /// distinct centers gets the elastic along-normal velocity exchange and
    /// is pushed apart, all computed from the snapshot and written back.
    pub fn rock_rock_collision(&mut self)
        requires
            game_wf(*old(self)),
        ensures
            game_wf(*final(self)),
            *final(self) == (GameState { rocks: final(self).rocks, ..*old(self) }),
            final(self).rocks@ == spec_rr_from(
                old(self).rocks@,
                old(self).rocks@,
                0,
                1,
                play_xlim(*old(self)),
                play_ylim(*old(self)),
            ),
    {
        let ghost rocks0 = self.rocks@;
        let ghost xl = play_xlim(*old(self));
        let ghost yl = play_ylim(*old(self));
        let xlim: i64 = crate::geom::half_even(self.width) + POS_MARGIN;
        let ylim: i64 = crate::geom::half_even(self.height) + POS_MARGIN;
        let mut snap: Vec<Rock> = Vec::new();
        let mut c: usize = 0;
        while c < self.rocks.len()
            invariant
                c <= self.rocks@.len(),
                *self == *old(self),
                snap@ == self.rocks@.take(c as int),
            decreases self.rocks@.len() - c,
        {
            proof {
                assert(self.rocks@.take(c + 1 as int).drop_last() =~= self.rocks@.take(c as int));
            }
            snap.push(self.rocks[c]);
            c = c + 1;
        }
        proof {
            assert(self.rocks@.take(self.rocks@.len() as int) =~= self.rocks@);
        }
        let mut i: usize = 0;
        while i + 1 < self.rocks.len()
            invariant
                game_wf(*old(self)),
                snap@ == rocks0,
                rocks0 == old(self).rocks@,
                xl == play_xlim(*old(self)),
                yl == play_ylim(*old(self)),
                xlim == xl,
                ylim == yl,
                i <= self.rocks@.len(),
                self.rocks@.len() == rocks0.len(),
                *self == (GameState { rocks: self.rocks, ..*old(self) }),
                forall|m: int|
                    0 <= m < self.rocks@.len() ==> rock_wf(
                        #[trigger] self.rocks@[m],
                        old(self).width as int,
                        old(self).height as int,
                    ),
                spec_rr_from(rocks0, self.rocks@, i as int, i + 1 as int, xl, yl)
                    == spec_rr_from(rocks0, rocks0, 0, 1, xl, yl),
            decreases self.rocks@.len() - i,
        {
            let mut j: usize = i + 1;
            while j < self.rocks.len()
                invariant
                    game_wf(*old(self)),
                    snap@ == rocks0,
                    rocks0 == old(self).rocks@,
                    xl == play_xlim(*old(self)),
                    yl == play_ylim(*old(self)),
                    xlim == xl,
                    ylim == yl,
                    i + 1 < self.rocks@.len(),
                    i < j,
                    self.rocks@.len() == rocks0.len(),
                    *self == (GameState { rocks: self.rocks, ..*old(self) }),
                    forall|m: int|
                        0 <= m < self.rocks@.len() ==> rock_wf(
                            #[trigger] self.rocks@[m],
                            old(self).width as int,
                            old(self).height as int,
                        ),
                    spec_rr_from(rocks0, self.rocks@, i as int, j as int, xl, yl)
                        == spec_rr_from(rocks0, rocks0, 0, 1, xl, yl),
                decreases self.rocks@.len() - j,
            {
                let ri = snap[i];
                let rj = snap[j];
                if !(ri.pos.x == rj.pos.x && ri.pos.y == rj.pos.y) && circles_overlap(
                    ri.pos, ROCK_RADIUS, rj.pos, ROCK_RADIUS) {
                    let res = resolve_rock_pair(ri, rj, xlim, ylim);
                    self.rocks[i] = res.0;
                    self.rocks[j] = res.1;
                } else {
                    proof {
                        if ri.pos.x == rj.pos.x && ri.pos.y == rj.pos.y {
                            assert(ri.pos == rj.pos);
                        }
                        assert(!rr_pair_collides(rocks0[i as int], rocks0[j as int]));
                    }
                }
                j = j + 1;
            }
        i = i + 1;
        }
    }
}

impl GameState {
    /// The ship×rock pass: any overlap between the ship and a rock is
    /// immediately fatal and moves the run into the terminal `Defeated`
    /// phase; nothing else changes.
    pub fn player_rock_collision(&mut self)
        requires
            game_wf(*old(self)),
        ensures
            game_wf(*final(self)),
            *final(self) == (GameState { phase: final(self).phase, ..*old(self) }),
            (exists|i: int|
                0 <= i < old(self).rocks@.len() && spec_circles_overlap(
                    old(self).ship.pos,
                    PLAYER_RADIUS,
                    (#[trigger] old(self).rocks@[i]).pos,
                    ROCK_RADIUS,
                )) ==> final(self).phase == Phase::Defeated,
            !(exists|i: int|
                0 <= i < old(self).rocks@.len() && spec_circles_overlap(
                    old(self).ship.pos,
                    PLAYER_RADIUS,
                    (#[trigger] old(self).rocks@[i]).pos,
                    ROCK_RADIUS,
                )) ==> final(self).phase == old(self).phase,
    {
        let mut k: usize = 0;
        while k < self.rocks.len()
            invariant
                game_wf(*old(self)),
                k <= self.rocks@.len(),
                *self == *old(self),
                forall|j: int|
                    0 <= j < k ==> !spec_circles_overlap(
                        old(self).ship.pos,
                        PLAYER_RADIUS,
                        (#[trigger] old(self).rocks@[j]).pos,
                        ROCK_RADIUS,
                    ),
            decreases self.rocks@.len() - k,
        {
            if circles_overlap(self.ship.pos, PLAYER_RADIUS, self.rocks[k].pos, ROCK_RADIUS) {
                self.phase = Phase::Defeated;
                return ;
            }
            k = k + 1;
        }
    }

    /// The shot×rock pass: every shot is tested against every live rock at
    /// most once, in index order; the first overlap destroys both, scores
    /// one point and counts one wave kill.  Returns how many rocks were
    /// destroyed, so the host can trigger the impact sound.
    pub fn rock_shot_collision(&mut self) -> (destroyed: usize)
        requires
            game_wf(*old(self)),
        ensures
            game_wf(*final(self)),
            ({
                let r = spec_resolve_shots(old(self).shots@, old(self).rocks@);
                &&& final(self).shots@ == r.0
                &&& final(self).rocks@ == r.1
                &&& destroyed == r.2
            }),
            final(self).kills == old(self).kills + destroyed,
            final(self).score == old(self).score + destroyed,
            final(self).ship == old(self).ship,
            final(self).phase == old(self).phase,
            final(self).level == old(self).level,
            final(self).width == old(self).width,
            final(self).height == old(self).height,
    {
        let ghost shots0 = self.shots@;
        let ghost rocks0 = self.rocks@;
        let mut kept: Vec<Shot> = Vec::new();
        let mut destroyed: usize = 0;
        let mut i: usize = 0;
        proof {
            assert(shots0.skip(0) =~= shots0);
        }
        while i < self.shots.len()
            invariant
                game_wf(*old(self)),
                i <= shots0.len(),
                self.shots@ == shots0,
                rocks0 == old(self).rocks@,
                shots0 == old(self).shots@,
                *self == (GameState { rocks: self.rocks, ..*old(self) }),
                destroyed + self.rocks@.len() == rocks0.len(),
                kept@.len() + destroyed == i,
                forall|j: int|
                    0 <= j < self.rocks@.len() ==> rock_wf(
                        #[trigger] self.rocks@[j],
                        old(self).width as int,
                        old(self).height as int,
                    ),
                forall|j: int|
                    0 <= j < kept@.len() ==> shot_wf(
                        #[trigger] kept@[j],
                        old(self).width as int,
                        old(self).height as int,
                    ),
                ({
                    let full = spec_resolve_shots(shots0, rocks0);
                    let rest = spec_resolve_shots(shots0.skip(i as int), self.rocks@);
                    &&& full.0 == kept@ + rest.0
                    &&& full.1 == rest.1
                    &&& full.2 == destroyed + rest.2
                }),
            decreases shots0.len() - i,
        {
            let shot = self.shots[i];
            let ghost pre_rocks = self.rocks@;
            let ghost sh = shots0.skip(i as int);
            proof {
                assert(sh[0] == shots0[i as int]);
                assert(sh.drop_first() =~= shots0.skip(i + 1));
            }
            let hit = find_first_hit(&shot, &self.rocks);
            proof {
                lemma_first_hit_from_props(shot, pre_rocks, opt_as_int(hit));
            }
            match hit {
                Option::Some(j) => {
                    self.rocks.remove(j);
                    destroyed = destroyed + 1;
                },
                Option::None => {
                    let ghost kept0 = kept@;
                    kept.push(shot);
                    proof {
                        let rest2 = spec_resolve_shots(shots0.skip(i + 1), self.rocks@);
                        assert(kept0 + (seq![shot] + rest2.0) =~= kept0.push(shot) + rest2.0);
                    }
                },
            }
            i = i + 1;
        }
        proof {
            assert(shots0.skip(shots0.len() as int) =~= Seq::<Shot>::empty());
            let full = spec_resolve_shots(shots0, rocks0);
            assert(full.0 == kept@ + spec_resolve_shots(
                shots0.skip(shots0.len() as int), self.rocks@).0);
            assert(kept@ + Seq::<Shot>::empty() =~= kept@);
            lemma_resolve_shots_counts(shots0, rocks0);
        }
        self.shots = kept;
        proof {
            lemma_cleared_rock_total_bounds(old(self).level as int);
        }
        self.kills = self.kills + (destroyed as u16);
        self.score = self.score + (destroyed as u64);
        destroyed
    }
}

} // verus!
