use vstd::prelude::*;

use crate::fixed::{fx_mul, tdiv, SCALE};
use crate::trig::{cos_spec, sin_spec, TAU_FX};

verus! {

/// Largest coordinate magnitude the geometric primitives accept. Wide
/// enough that every point a well-formed simulation can produce (positions,
/// wall corners, sensor mounts) stays strictly inside it.
pub const GEO_LIMIT: i64 = 20_000_000;

/// Largest magnitude of a direction-vector component. Unit direction
/// vectors have components in `[-SCALE, SCALE]`.
pub const DIR_LIMIT: i64 = 2_000;

/// A two-dimensional point or vector in fixed-point world coordinates.
#[derive(Clone, Copy, Debug, PartialEq, Eq, Structural)]
pub struct Vec2Fx {
    pub x: i64,
    pub y: i64,
}

pub open spec fn ok_coord(v: int) -> bool {
    -GEO_LIMIT <= v <= GEO_LIMIT
}

pub open spec fn ok_point(p: Vec2Fx) -> bool {
    ok_coord(p.x as int) && ok_coord(p.y as int)
}

pub open spec fn ok_dir_coord(v: int) -> bool {
    -DIR_LIMIT <= v <= DIR_LIMIT
}

pub open spec fn ok_dir(d: Vec2Fx) -> bool {
    ok_dir_coord(d.x as int) && ok_dir_coord(d.y as int)
}

/// Twice the signed area of the triangle `a`, `b`, `c`: positive when the
/// turn from `ab` to `bc` is counterclockwise.
pub open spec fn cross_val(a: Vec2Fx, b: Vec2Fx, c: Vec2Fx) -> int {
    (b.y - a.y) * (c.x - b.x) - (b.x - a.x) * (c.y - b.y)
}

pub open spec fn sign(v: int) -> int {
    if v == 0 {
        0
    } else if v > 0 {
        1
    } else {
        -1
    }
}

/// Orientation of the point triple, as the sign of its doubled area.
pub open spec fn orient_spec(a: Vec2Fx, b: Vec2Fx, c: Vec2Fx) -> int {
    sign(cross_val(a, b, c))
}

/// Proper crossing of segments `p1p2` and `q1q2`: each segment's endpoints
/// lie on strictly opposite sides (or one on the line) of the other, with
/// the two orientation signs differing on both sides.
pub open spec fn segs_cross(p1: Vec2Fx, p2: Vec2Fx, q1: Vec2Fx, q2: Vec2Fx) -> bool {
    orient_spec(p1, p2, q1) != orient_spec(p1, p2, q2) && orient_spec(q1, q2, p1) != orient_spec(
        q1,
        q2,
        p2,
    )
}

fn orientation(a: Vec2Fx, b: Vec2Fx, c: Vec2Fx) -> (r: i32)
    requires
        ok_point(a),
        ok_point(b),
        ok_point(c),
    ensures
        r == orient_spec(a, b, c),
{
    proof {
        assert((b.y - a.y) * (c.x - b.x) <= 40_000_000 * 40_000_000 && (b.y - a.y) * (c.x - b.x)
            >= -(40_000_000 * 40_000_000)) by (nonlinear_arith)
            requires
                -40_000_000 <= b.y - a.y <= 40_000_000,
                -40_000_000 <= c.x - b.x <= 40_000_000,
        ;
        assert((b.x - a.x) * (c.y - b.y) <= 40_000_000 * 40_000_000 && (b.x - a.x) * (c.y - b.y)
            >= -(40_000_000 * 40_000_000)) by (nonlinear_arith)
            requires
                -40_000_000 <= b.x - a.x <= 40_000_000,
                -40_000_000 <= c.y - b.y <= 40_000_000,
        ;
    }
    let val: i64 = (b.y - a.y) * (c.x - b.x) - (b.x - a.x) * (c.y - b.y);
    if val == 0 {
        0
    } else if val > 0 {
        1
    } else {
        -1
    }
}

/// Whether two line segments properly intersect, by the four-orientation
/// test. Shared by the collision detector; sensing uses the parametric
/// ray test instead.
pub fn lines_intersect(p1: Vec2Fx, p2: Vec2Fx, q1: Vec2Fx, q2: Vec2Fx) -> (r: bool)
    requires
        ok_point(p1),
        ok_point(p2),
        ok_point(q1),
        ok_point(q2),
    ensures
        r == segs_cross(p1, p2, q1, q2),
{
    let o1 = orientation(p1, p2, q1);
    let o2 = orientation(p1, p2, q2);
    let o3 = orientation(q1, q2, p1);
    let o4 = orientation(q1, q2, p2);
    o1 != o2 && o3 != o4
}

/// Rotation of a local offset by a reduced heading angle, in fixed point.
pub open spec fn rotate_spec(v: Vec2Fx, h: int) -> Vec2Fx
    recommends
        0 <= h < TAU_FX,
{
    let c = cos_spec(h);
    let s = sin_spec(h);
    Vec2Fx {
        x: (fx_mul(v.x as int, c) - fx_mul(v.y as int, s)) as i64,
        y: (fx_mul(v.x as int, s) + fx_mul(v.y as int, c)) as i64,
    }
}

/// Rotating an offset at most doubles a coordinatewise bound: each new
/// component mixes the two old ones through factors of at most one.
pub proof fn lemma_rotate_bounded(v: Vec2Fx, h: int, m: int)
    requires
        0 <= h < TAU_FX,
        m >= 0,
        -m <= v.x <= m,
        -m <= v.y <= m,
    ensures
        -2 * m <= rotate_spec(v, h).x <= 2 * m,
        -2 * m <= rotate_spec(v, h).y <= 2 * m,
{
    let c = cos_spec(h);
    let s = sin_spec(h);
    crate::trig::lemma_sin_bounds(h);
    crate::trig::lemma_cos_bounds(h);
    lemma_fx_mul_contract(v.x as int, c, m);
    lemma_fx_mul_contract(v.y as int, s, m);
    lemma_fx_mul_contract(v.x as int, s, m);
    lemma_fx_mul_contract(v.y as int, c, m);
}

/// Multiplying by a factor no larger than one in fixed point cannot grow
/// the magnitude.
pub proof fn lemma_fx_mul_contract(a: int, f: int, m: int)
    requires
        m >= 0,
        -m <= a <= m,
        -SCALE <= f <= SCALE,
    ensures
        -m <= fx_mul(a, f) <= m,
{
    assert(-(m * SCALE) <= a * f <= m * SCALE) by (nonlinear_arith)
        requires
            m >= 0,
            -m <= a <= m,
            -SCALE <= f <= SCALE,
    ;
    lemma_tdiv_bound(a * f, SCALE as int, m);
}

/// Truncating division by a positive divisor shrinks toward zero: a bound
/// on the dividend of `m * d` bounds the quotient by `m`.
pub proof fn lemma_tdiv_bound(n: int, d: int, m: int)
    requires
        d > 0,
        m >= 0,
        -(m * d) <= n <= m * d,
    ensures
        -m <= tdiv(n, d) <= m,
{
    if n >= 0 {
        vstd::arithmetic::div_mod::lemma_div_pos_is_pos(n, d);
        vstd::arithmetic::div_mod::lemma_div_is_ordered(n, m * d, d);
        vstd::arithmetic::div_mod::lemma_div_by_multiple(m, d);
    } else {
        vstd::arithmetic::div_mod::lemma_div_pos_is_pos(-n, d);
        vstd::arithmetic::div_mod::lemma_div_is_ordered(-n, m * d, d);
        vstd::arithmetic::div_mod::lemma_div_by_multiple(m, d);
    }
}

/// Rotate a local offset vector by a reduced heading angle.
pub fn rotate(v: Vec2Fx, h: i64) -> (r: Vec2Fx)
    requires
        0 <= h < TAU_FX,
        ok_point(v),
    ensures
        r == rotate_spec(v, h as int),
{
    let c: i64 = crate::trig::cos_fx(h);
    let s: i64 = crate::trig::sin_fx(h);
    proof {
        lemma_mul_fits(v.x as int, c as int);
        lemma_mul_fits(v.y as int, s as int);
        lemma_mul_fits(v.x as int, s as int);
        lemma_mul_fits(v.y as int, c as int);
        lemma_fx_mul_contract(v.x as int, c as int, GEO_LIMIT as int);
        lemma_fx_mul_contract(v.y as int, s as int, GEO_LIMIT as int);
        lemma_fx_mul_contract(v.x as int, s as int, GEO_LIMIT as int);
        lemma_fx_mul_contract(v.y as int, c as int, GEO_LIMIT as int);
    }
    let xc: i64 = crate::fixed::div_trunc(v.x * c, SCALE);
    let ys: i64 = crate::fixed::div_trunc(v.y * s, SCALE);
    let xs: i64 = crate::fixed::div_trunc(v.x * s, SCALE);
    let yc: i64 = crate::fixed::div_trunc(v.y * c, SCALE);
    Vec2Fx { x: xc - ys, y: xs + yc }
}

proof fn lemma_mul_fits(a: int, f: int)
    requires
        -GEO_LIMIT <= a <= GEO_LIMIT,
        -SCALE <= f <= SCALE,
    ensures
        -(GEO_LIMIT as int * SCALE) <= a * f <= GEO_LIMIT as int * SCALE,
{
    assert(-(GEO_LIMIT as int * SCALE) <= a * f <= GEO_LIMIT as int * SCALE) by (nonlinear_arith)
        requires
            -GEO_LIMIT <= a <= GEO_LIMIT,
            -SCALE <= f <= SCALE,
    ;
}

} // verus!
