use bastroblasto::geom::{
    circles_overlap, clamp_i64, div_trunc_i64, half_even, isqrt_ceil, isqrt_floor, mod_euclid,
    wrap_coord, wrap_position, Vec2,
};

const W: i64 = 800_000_000;
const H: i64 = 600_000_000;

#[test]
fn wrap_moves_overshoot_back_on_screen() {
    let p = Vec2 { x: 900_000_000, y: -700_000_000 };
    let r = wrap_position(p, W, H);
    assert_eq!(r.x, 100_000_000);
    assert_eq!(r.y, -100_000_000);
}

#[test]
fn wrap_keeps_interior_points() {
    let p = Vec2 { x: 123_456, y: -299_999_999 };
    let r = wrap_position(p, W, H);
    assert_eq!(r, p);
}

#[test]
fn wrap_result_is_always_within_half_dimensions() {
    let samples = [
        Vec2 { x: 0, y: 0 },
        Vec2 { x: W, y: H },
        Vec2 { x: -W, y: -H },
        Vec2 { x: 3 * W + 7, y: -(2 * H) - 13 },
        Vec2 { x: 400_000_000, y: 300_000_000 },
        Vec2 { x: -400_000_000, y: -300_000_000 },
    ];
    for p in samples {
        let r = wrap_position(p, W, H);
        assert!(-W / 2 <= r.x && r.x <= W / 2);
        assert!(-H / 2 <= r.y && r.y <= H / 2);
    }
}

#[test]
fn wrap_coord_handles_many_screens_of_travel() {
    assert_eq!(wrap_coord(0, 10), 0);
    assert_eq!(wrap_coord(5, 10), -5);
    assert_eq!(wrap_coord(-5, 10), -5);
    assert_eq!(wrap_coord(4, 10), 4);
    assert_eq!(wrap_coord(37, 10), -3);
    assert_eq!(wrap_coord(-37, 10), 3);
}

#[test]
fn circle_overlaps_itself_when_radius_positive() {
    let p = Vec2 { x: 42, y: -17 };
    assert!(circles_overlap(p, 1, p, 1));
    assert!(circles_overlap(p, 12_000_000, p, 12_000_000));
    assert!(!circles_overlap(p, 0, p, 0));
}

#[test]
fn circle_overlap_is_symmetric() {
    let pa = Vec2 { x: 0, y: 0 };
    let pb = Vec2 { x: 20_000_000, y: 5_000_000 };
    assert_eq!(
        circles_overlap(pa, 12_000_000, pb, 12_000_000),
        circles_overlap(pb, 12_000_000, pa, 12_000_000)
    );
    let pc = Vec2 { x: 100_000_000, y: 0 };
    assert_eq!(
        circles_overlap(pa, 12_000_000, pc, 6_000_000),
        circles_overlap(pc, 6_000_000, pa, 12_000_000)
    );
}

#[test]
fn circle_overlap_is_strict_at_touching_distance() {
    let pa = Vec2 { x: 0, y: 0 };
    // centers exactly radius-sum apart: touching, not overlapping
    assert!(!circles_overlap(pa, 12_000_000, Vec2 { x: 24_000_000, y: 0 }, 12_000_000));
    assert!(circles_overlap(pa, 12_000_000, Vec2 { x: 23_999_999, y: 0 }, 12_000_000));
}

#[test]
fn integer_sqrt_rounds_as_documented() {
    assert_eq!(isqrt_floor(0), 0);
    assert_eq!(isqrt_floor(1), 1);
    assert_eq!(isqrt_floor(2), 1);
    assert_eq!(isqrt_floor(4), 2);
    assert_eq!(isqrt_floor(15), 3);
    assert_eq!(isqrt_floor(16), 4);
    assert_eq!(isqrt_floor(1_000_000_000_000), 1_000_000);
    assert_eq!(isqrt_ceil(0), 0);
    assert_eq!(isqrt_ceil(16), 4);
    assert_eq!(isqrt_ceil(17), 5);
}

#[test]
fn division_helpers_round_toward_zero_and_euclid() {
    assert_eq!(div_trunc_i64(7, 2), 3);
    assert_eq!(div_trunc_i64(-7, 2), -3);
    assert_eq!(div_trunc_i64(0, 5), 0);
    assert_eq!(mod_euclid(7, 5), 2);
    assert_eq!(mod_euclid(-1, 5), 4);
    assert_eq!(mod_euclid(-10, 5), 0);
    assert_eq!(clamp_i64(7, 5), 5);
    assert_eq!(clamp_i64(-7, 5), -5);
    assert_eq!(clamp_i64(3, 5), 3);
    assert_eq!(half_even(10), 5);
}
