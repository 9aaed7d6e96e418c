use micromouse::geometry::{lines_intersect, rotate, Vec2Fx};
use micromouse::trig::{cos_fx, normalize_angle, sin_fx, DOWN, LEFT, RIGHT, TAU_FX, UP};

fn v(x: i64, y: i64) -> Vec2Fx {
    Vec2Fx { x, y }
}

#[test]
fn crossing_segments_intersect() {
    assert!(lines_intersect(v(0, 0), v(10_000, 10_000), v(0, 10_000), v(10_000, 0)));
}

#[test]
fn parallel_segments_do_not_intersect() {
    assert!(!lines_intersect(v(0, 0), v(10_000, 0), v(0, 1_000), v(10_000, 1_000)));
}

#[test]
fn collinear_overlap_is_not_a_proper_crossing() {
    assert!(!lines_intersect(v(0, 0), v(10_000, 0), v(5_000, 0), v(15_000, 0)));
}

#[test]
fn t_junction_counts_as_crossing() {
    // One segment ending on the interior of the other flips exactly one
    // orientation sign on each side, so the four-sign test reports it.
    assert!(lines_intersect(v(0, 0), v(10_000, 0), v(5_000, 0), v(5_000, 10_000)));
}

#[test]
fn cardinal_angles_are_exact() {
    assert_eq!(sin_fx(RIGHT), 0);
    assert_eq!(cos_fx(RIGHT), 1000);
    assert_eq!(sin_fx(UP), 1000);
    assert_eq!(cos_fx(UP), 0);
    assert_eq!(sin_fx(LEFT), 0);
    assert_eq!(cos_fx(LEFT), -1000);
    assert_eq!(sin_fx(DOWN), -1000);
    assert_eq!(cos_fx(DOWN), 0);
}

#[test]
fn sine_stays_within_unit_bounds() {
    let mut a: i64 = 0;
    while a < TAU_FX {
        let s = sin_fx(a);
        let c = cos_fx(a);
        assert!(-1000 <= s && s <= 1000);
        assert!(-1000 <= c && c <= 1000);
        a += 7;
    }
}

#[test]
fn angle_normalization_wraps() {
    assert_eq!(normalize_angle(TAU_FX), 0);
    assert_eq!(normalize_angle(-100), TAU_FX - 100);
    assert_eq!(normalize_angle(3 * TAU_FX + 5), 5);
}

#[test]
fn rotation_by_quarter_turn() {
    let r = rotate(v(1_000, 0), UP);
    assert_eq!(r, v(0, 1_000));
    let r = rotate(v(1_000, 0), LEFT);
    assert_eq!(r, v(-1_000, 0));
    let r = rotate(v(2_000, 3_000), RIGHT);
    assert_eq!(r, v(2_000, 3_000));
}
