use vstd::prelude::*;

use crate::fixed::{tdiv, SCALE};

verus! {

/// Quarter turn in fixed-point radians (pi/2, scaled by `SCALE`).
pub const HALF_PI_FX: i64 = 1571;

/// Half turn in fixed-point radians. Chosen as exactly twice `HALF_PI_FX`
/// so that the four cardinal headings land on exact multiples.
pub const PI_FX: i64 = 3142;

/// Full turn in fixed-point radians, exactly four quarter turns.
pub const TAU_FX: i64 = 6284;

/// Canonical start headings: heading 0 points along +x, and angles grow
/// counterclockwise through +y.
pub const RIGHT: i64 = 0;

pub const UP: i64 = 1571;

pub const LEFT: i64 = 3142;

pub const DOWN: i64 = 4713;

/// A multiple of `TAU_FX` large enough to shift any angle this crate can
/// produce into non-negative territory before reduction.
pub const ANGLE_SHIFT: i64 = 2_513_600_000_000_000;

/// Largest magnitude an unreduced angle may take.
pub const ANGLE_RAW_LIMIT: i64 = 2_000_000_000_000_000;

/// Bhaskara's rational sine approximation on the first half turn,
/// carried out in fixed point. Exact at 0, at `HALF_PI_FX` (where it
/// yields `SCALE`) and at `PI_FX`.
pub open spec fn sin_half_spec(x: int) -> int
    recommends
        0 <= x <= PI_FX,
{
    let n = x * (PI_FX - x);
    (16 * n * SCALE) / (5 * PI_FX * PI_FX - 4 * n)
}

/// Fixed-point sine of a reduced angle in `[0, TAU_FX)`, by odd symmetry
/// about the half turn.
pub open spec fn sin_spec(x: int) -> int
    recommends
        0 <= x < TAU_FX,
{
    if x <= PI_FX {
        sin_half_spec(x)
    } else {
        -sin_half_spec(x - PI_FX)
    }
}

/// Fixed-point cosine of a reduced angle, as the sine a quarter turn ahead.
pub open spec fn cos_spec(x: int) -> int
    recommends
        0 <= x < TAU_FX,
{
    if x + HALF_PI_FX < TAU_FX {
        sin_spec(x + HALF_PI_FX)
    } else {
        sin_spec(x + HALF_PI_FX - TAU_FX)
    }
}

proof fn lemma_sin_half_bounds(x: int)
    requires
        0 <= x <= PI_FX,
    ensures
        0 <= sin_half_spec(x) <= SCALE,
{
    let n = x * (PI_FX - x);
    let den = 5 * PI_FX * PI_FX - 4 * n;
    assert(0 <= n && 4 * n <= PI_FX * PI_FX) by (nonlinear_arith)
        requires
            0 <= x <= PI_FX,
            n == x * (PI_FX - x),
    {
        assert((2 * x - PI_FX) * (2 * x - PI_FX) >= 0);
    }
    assert(den >= 4 * PI_FX * PI_FX);
    assert(16 * n * SCALE >= 0) by (nonlinear_arith)
        requires
            n >= 0,
    ;
    vstd::arithmetic::div_mod::lemma_div_pos_is_pos(16 * n * SCALE, den);
    assert(16 * n * SCALE <= SCALE * den) by (nonlinear_arith)
        requires
            4 * n <= PI_FX * PI_FX,
            den == 5 * PI_FX * PI_FX - 4 * n,
    ;
    vstd::arithmetic::div_mod::lemma_div_is_ordered(16 * n * SCALE, SCALE * den, den);
    vstd::arithmetic::div_mod::lemma_div_by_multiple(SCALE as int, den);
}

/// The sine approximation never leaves `[-SCALE, SCALE]`.
pub proof fn lemma_sin_bounds(x: int)
    requires
        0 <= x < TAU_FX,
    ensures
        -SCALE <= sin_spec(x) <= SCALE,
{
    if x <= PI_FX {
        lemma_sin_half_bounds(x);
    } else {
        lemma_sin_half_bounds(x - PI_FX);
    }
}

/// The cosine approximation never leaves `[-SCALE, SCALE]`.
pub proof fn lemma_cos_bounds(x: int)
    requires
        0 <= x < TAU_FX,
    ensures
        -SCALE <= cos_spec(x) <= SCALE,
{
    if x + HALF_PI_FX < TAU_FX {
        lemma_sin_bounds(x + HALF_PI_FX);
    } else {
        lemma_sin_bounds(x + HALF_PI_FX - TAU_FX);
    }
}

/// The four cardinal headings evaluate exactly: their sines and cosines
/// are precisely zero or a full unit, so an axis-aligned vehicle moves
/// along that axis alone. This is why the full turn is exactly four
/// quarter turns.
pub proof fn lemma_cardinal_headings()
    ensures
        sin_spec(RIGHT as int) == 0 && cos_spec(RIGHT as int) == SCALE,
        sin_spec(UP as int) == SCALE && cos_spec(UP as int) == 0,
        sin_spec(LEFT as int) == 0 && cos_spec(LEFT as int) == -SCALE,
        sin_spec(DOWN as int) == -SCALE && cos_spec(DOWN as int) == 0,
{
    assert(5 * PI_FX * PI_FX == 49_360_820) by (nonlinear_arith);
    vstd::arithmetic::div_mod::lemma_div_of0(49_360_820);
    assert(sin_half_spec(0) == 0);
    assert(1571int * (PI_FX - 1571) == 2_468_041) by (nonlinear_arith);
    vstd::arithmetic::div_mod::lemma_div_by_multiple(1000, 39_488_656);
    assert(1000int * 39_488_656 == 39_488_656_000) by (nonlinear_arith);
    assert(sin_half_spec(1571) == 1000);
    assert(3142int * (PI_FX - 3142) == 0) by (nonlinear_arith);
    vstd::arithmetic::div_mod::lemma_div_of0(5 * PI_FX * PI_FX);
    assert(sin_half_spec(3142) == 0);
}

fn sin_half(x: i64) -> (r: i64)
    requires
        0 <= x <= PI_FX,
    ensures
        r == sin_half_spec(x as int),
        0 <= r <= SCALE,
{
    proof {
        lemma_sin_half_bounds(x as int);
        assert(0 <= (x as int) * (PI_FX - x) && 4 * ((x as int) * (PI_FX - x)) <= PI_FX
            * PI_FX) by (nonlinear_arith)
            requires
                0 <= x <= PI_FX,
        {
            assert((2 * (x as int) - PI_FX) * (2 * (x as int) - PI_FX) >= 0);
        }
    }
    let n: i64 = x * (PI_FX - x);
    let num: u64 = (16 * n * SCALE) as u64;
    let den: u64 = (5 * PI_FX * PI_FX - 4 * n) as u64;
    let q: u64 = num / den;
    q as i64
}

/// Fixed-point sine of a reduced angle.
pub fn sin_fx(x: i64) -> (r: i64)
    requires
        0 <= x < TAU_FX,
    ensures
        r == sin_spec(x as int),
        -SCALE <= r <= SCALE,
{
    if x <= PI_FX {
        sin_half(x)
    } else {
        -sin_half(x - PI_FX)
    }
}

/// Fixed-point cosine of a reduced angle.
pub fn cos_fx(x: i64) -> (r: i64)
    requires
        0 <= x < TAU_FX,
    ensures
        r == cos_spec(x as int),
        -SCALE <= r <= SCALE,
{
    let t: i64 = x + HALF_PI_FX;
    if t < TAU_FX {
        sin_fx(t)
    } else {
        sin_fx(t - TAU_FX)
    }
}

/// Reduce an accumulated angle into `[0, TAU_FX)`, keeping its value
/// modulo a full turn.
pub fn normalize_angle(h: i64) -> (r: i64)
    requires
        -ANGLE_RAW_LIMIT <= h <= ANGLE_RAW_LIMIT,
    ensures
        r == (h as int) % (TAU_FX as int),
        0 <= r < TAU_FX,
{
    proof {
        assert(ANGLE_SHIFT == TAU_FX * 400_000_000_000);
        vstd::arithmetic::div_mod::lemma_mod_multiples_vanish(
            400_000_000_000,
            h as int,
            TAU_FX as int,
        );
    }
    let s: i64 = h + ANGLE_SHIFT;
    let r: u64 = (s as u64) % (TAU_FX as u64);
    r as i64
}

} // verus!
