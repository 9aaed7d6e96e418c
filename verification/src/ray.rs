use vstd::prelude::*;

use crate::fixed::{clamp_spec, tdiv};
use crate::geometry::{ok_dir, ok_point, Vec2Fx};
use crate::maze::{Rectangle, Wall};

verus! {

/// Hit points are clamped into this span around the ray origin; the
/// clamp is unreachable for walls inside the world bounds and only keeps
/// degenerate near-parallel hits from overflowing.
pub const HIT_SPAN: i64 = 100_000_000;

/// A sensing ray: an origin and a direction vector of unit length in
/// fixed point.
#[derive(Clone, Copy, Debug, PartialEq, Eq, Structural)]
pub struct Ray {
    pub origin: Vec2Fx,
    pub direction: Vec2Fx,
}

/// Perpendicular-dot denominator of the ray against the edge `ab`: zero
/// exactly when the ray is parallel to the edge.
pub open spec fn edge_denom(r: Ray, a: Vec2Fx, b: Vec2Fx) -> int {
    r.direction.x * -(b.y - a.y) + r.direction.y * (b.x - a.x)
}

pub open spec fn edge_num1(r: Ray, a: Vec2Fx, b: Vec2Fx) -> int {
    (a.x - r.origin.x) * -(b.y - a.y) + (a.y - r.origin.y) * (b.x - a.x)
}

pub open spec fn edge_num2(r: Ray, a: Vec2Fx, b: Vec2Fx) -> int {
    (a.x - r.origin.x) * -r.direction.y + (a.y - r.origin.y) * r.direction.x
}

/// The ray meets the edge when it is not parallel, the ray parameter
/// `num1/den` is non-negative, and the edge parameter `num2/den` lies in
/// the unit interval — stated exactly over the integer numerators.
pub open spec fn edge_hit(r: Ray, a: Vec2Fx, b: Vec2Fx) -> bool {
    let den = edge_denom(r, a, b);
    let n1 = edge_num1(r, a, b);
    let n2 = edge_num2(r, a, b);
    den != 0 && n1 * den >= 0 && 0 <= n2 * den <= den * den
}

/// The met point: the origin advanced by `num1/den` of the direction,
/// truncated toward zero and clamped into the hit span.
pub open spec fn edge_hit_point(r: Ray, a: Vec2Fx, b: Vec2Fx) -> Vec2Fx {
    let den = edge_denom(r, a, b);
    let n1 = edge_num1(r, a, b);
    let d = if den > 0 {
        den
    } else {
        -den
    };
    let n = if den > 0 {
        n1
    } else {
        -n1
    };
    Vec2Fx {
        x: (r.origin.x + clamp_spec(
            tdiv(n * r.direction.x, d),
            -HIT_SPAN as int,
            HIT_SPAN as int,
        )) as i64,
        y: (r.origin.y + clamp_spec(
            tdiv(n * r.direction.y, d),
            -HIT_SPAN as int,
            HIT_SPAN as int,
        )) as i64,
    }
}

/// The ray's hit against a wall quadrilateral: each of the four edges is
/// tried in order and the last accepted edge's point is kept.
pub open spec fn wall_hit(r: Ray, w: Rectangle) -> Option<Vec2Fx> {
    if edge_hit(r, w.p4, w.p1) {
        Some(edge_hit_point(r, w.p4, w.p1))
    } else if edge_hit(r, w.p3, w.p4) {
        Some(edge_hit_point(r, w.p3, w.p4))
    } else if edge_hit(r, w.p2, w.p3) {
        Some(edge_hit_point(r, w.p2, w.p3))
    } else if edge_hit(r, w.p1, w.p2) {
        Some(edge_hit_point(r, w.p1, w.p2))
    } else {
        None
    }
}

pub open spec fn dist2(a: Vec2Fx, b: Vec2Fx) -> int {
    (a.x - b.x) * (a.x - b.x) + (a.y - b.y) * (a.y - b.y)
}

/// The nearest hit over a wall list, by squared distance from the ray
/// origin; on ties the earlier wall is kept.
pub open spec fn nearest_hit(r: Ray, walls: Seq<Wall>) -> Option<(Vec2Fx, int)>
    decreases walls.len(),
{
    if walls.len() == 0 {
        None
    } else {
        let prev = nearest_hit(r, walls.drop_last());
        match wall_hit(r, walls.last().0) {
            Some(p) => {
                let d = dist2(p, r.origin);
                match prev {
                    None => Some((p, d)),
                    Some(pd) => if d < pd.1 {
                        Some((p, d))
                    } else {
                        Some(pd)
                    },
                }
            },
            None => prev,
        }
    }
}

/// Law: the nearest-hit search returns a true minimum. Whenever it
/// reports a hit, that hit comes from one of the walls, carries its exact
/// squared distance from the ray origin, and no wall's hit is closer;
/// whenever it reports nothing, no wall is hit at all.
pub proof fn lemma_nearest_hit_minimal(r: Ray, walls: Seq<Wall>)
    ensures
        match nearest_hit(r, walls) {
            Some(pd) => {
                &&& exists|i: int|
                    0 <= i < walls.len() && wall_hit(r, (#[trigger] walls[i]).0) == Some(pd.0)
                &&& pd.1 == dist2(pd.0, r.origin)
                &&& forall|i: int|
                    0 <= i < walls.len() ==> match wall_hit(r, (#[trigger] walls[i]).0) {
                        Some(q) => dist2(q, r.origin) >= pd.1,
                        None => true,
                    }
            },
            None => forall|i: int|
                0 <= i < walls.len() ==> wall_hit(r, (#[trigger] walls[i]).0) is None,
        },
    decreases walls.len(),
{
    if walls.len() > 0 {
        lemma_nearest_hit_minimal(r, walls.drop_last());
        let last = walls.len() - 1;
        assert forall|i: int| 0 <= i < last implies walls.drop_last()[i] == walls[i] by {}
        match nearest_hit(r, walls) {
            Some(pd) => {
                match wall_hit(r, walls.last().0) {
                    Some(p) => {
                        if nearest_hit(r, walls.drop_last()) is Some {
                            let prev = nearest_hit(r, walls.drop_last())->Some_0;
                            if dist2(p, r.origin) < prev.1 {
                                assert(wall_hit(r, walls[last].0) == Some(pd.0));
                            } else {
                                let j = choose|j: int|
                                    0 <= j < walls.drop_last().len() && wall_hit(
                                        r,
                                        (#[trigger] walls.drop_last()[j]).0,
                                    ) == Some(prev.0);
                                assert(wall_hit(r, walls[j].0) == Some(pd.0));
                            }
                        } else {
                            assert(wall_hit(r, walls[last].0) == Some(pd.0));
                        }
                    },
                    None => {
                        let prev = nearest_hit(r, walls.drop_last())->Some_0;
                        let j = choose|j: int|
                            0 <= j < walls.drop_last().len() && wall_hit(
                                r,
                                (#[trigger] walls.drop_last()[j]).0,
                            ) == Some(prev.0);
                        assert(wall_hit(r, walls[j].0) == Some(pd.0));
                    },
                }
            },
            None => {},
        }
    }
}

pub open spec fn hit_pt_ok(p: Vec2Fx) -> bool {
    -120_000_000 <= p.x <= 120_000_000 && -120_000_000 <= p.y <= 120_000_000
}

fn edge_check(r: &Ray, a: Vec2Fx, b: Vec2Fx) -> (res: Option<Vec2Fx>)
    requires
        ok_point(r.origin),
        ok_dir(r.direction),
        ok_point(a),
        ok_point(b),
    ensures
        res is Some <==> edge_hit(*r, a, b),
        res matches Some(p) ==> p == edge_hit_point(*r, a, b) && hit_pt_ok(p),
{
    let wx: i64 = b.x - a.x;
    let wy: i64 = b.y - a.y;
    proof {
        assert(-(2000 * 40_000_000) <= r.direction.x * -(wy as int) <= 2000
            * 40_000_000) by (nonlinear_arith)
            requires
                -2000 <= r.direction.x <= 2000,
                -40_000_000 <= wy <= 40_000_000,
        ;
        assert(-(2000 * 40_000_000) <= r.direction.y * (wx as int) <= 2000
            * 40_000_000) by (nonlinear_arith)
            requires
                -2000 <= r.direction.y <= 2000,
                -40_000_000 <= wx <= 40_000_000,
        ;
    }
    let den: i64 = r.direction.x * (-wy) + r.direction.y * wx;
    if den == 0 {
        return None;
    }
    let rx: i64 = a.x - r.origin.x;
    let ry: i64 = a.y - r.origin.y;
    proof {
        assert(-(40_000_000i64 as int * 40_000_000) <= rx as int * -(wy as int) <= 40_000_000i64
            as int * 40_000_000) by (nonlinear_arith)
            requires
                -40_000_000 <= rx <= 40_000_000,
                -40_000_000 <= wy <= 40_000_000,
        ;
        assert(-(40_000_000i64 as int * 40_000_000) <= ry as int * (wx as int) <= 40_000_000i64
            as int * 40_000_000) by (nonlinear_arith)
            requires
                -40_000_000 <= ry <= 40_000_000,
                -40_000_000 <= wx <= 40_000_000,
        ;
        assert(-(2000 * 40_000_000) <= rx as int * -(r.direction.y as int) <= 2000
            * 40_000_000) by (nonlinear_arith)
            requires
                -2000 <= r.direction.y <= 2000,
                -40_000_000 <= rx <= 40_000_000,
        ;
        assert(-(2000 * 40_000_000) <= ry as int * (r.direction.x as int) <= 2000
            * 40_000_000) by (nonlinear_arith)
            requires
                -2000 <= r.direction.x <= 2000,
                -40_000_000 <= ry <= 40_000_000,
        ;
    }
    let n1: i64 = rx * (-wy) + ry * wx;
    let n2: i64 = rx * (-r.direction.y) + ry * r.direction.x;
    let accepted: bool = if den > 0 {
        n1 >= 0 && 0 <= n2 && n2 <= den
    } else {
        n1 <= 0 && den <= n2 && n2 <= 0
    };
    proof {
        if den > 0 {
            assert((n1 as int * den >= 0) == (n1 >= 0)) by (nonlinear_arith)
                requires
                    den > 0,
            ;
            assert((n2 as int * den >= 0) == (n2 >= 0)) by (nonlinear_arith)
                requires
                    den > 0,
            ;
            assert((n2 as int * den <= den as int * den) == (n2 <= den)) by (nonlinear_arith)
                requires
                    den > 0,
            ;
        } else {
            assert((n1 as int * den >= 0) == (n1 <= 0)) by (nonlinear_arith)
                requires
                    den < 0,
            ;
            assert((n2 as int * den >= 0) == (n2 <= 0)) by (nonlinear_arith)
                requires
                    den < 0,
            ;
            assert((n2 as int * den <= den as int * den) == (n2 >= den)) by (nonlinear_arith)
                requires
                    den < 0,
            ;
        }
    }
    if !accepted {
        return None;
    }
    let d: i64 = if den > 0 {
        den
    } else {
        -den
    };
    let n: i64 = if den > 0 {
        n1
    } else {
        -n1
    };
    proof {
        assert(-(3_200_000_000_000_000i64 as int * 2000) <= n as int * r.direction.x
            <= 3_200_000_000_000_000i64 as int * 2000) by (nonlinear_arith)
            requires
                -3_200_000_000_000_000 <= n <= 3_200_000_000_000_000,
                -2000 <= r.direction.x <= 2000,
        ;
        assert(-(3_200_000_000_000_000i64 as int * 2000) <= n as int * r.direction.y
            <= 3_200_000_000_000_000i64 as int * 2000) by (nonlinear_arith)
            requires
                -3_200_000_000_000_000 <= n <= 3_200_000_000_000_000,
                -2000 <= r.direction.y <= 2000,
        ;
    }
    let qx: i64 = crate::fixed::div_trunc(n * r.direction.x, d);
    let qy: i64 = crate::fixed::div_trunc(n * r.direction.y, d);
    let cx: i64 = crate::fixed::clamp_i64(qx, -HIT_SPAN, HIT_SPAN);
    let cy: i64 = crate::fixed::clamp_i64(qy, -HIT_SPAN, HIT_SPAN);
    Some(Vec2Fx { x: r.origin.x + cx, y: r.origin.y + cy })
}

impl Ray {
    /// The last-checked edge of the wall that the ray accepts, if any.
    fn intersect(&self, wall: &Wall) -> (res: Option<Vec2Fx>)
        requires
            ok_point(self.origin),
            ok_dir(self.direction),
            ok_point(wall.0.p1),
            ok_point(wall.0.p2),
            ok_point(wall.0.p3),
            ok_point(wall.0.p4),
        ensures
            res == wall_hit(*self, wall.0),
            res matches Some(p) ==> hit_pt_ok(p),
    {
        let mut found: Option<Vec2Fx> = None;
        match edge_check(self, wall.0.p1, wall.0.p2) {
            Some(p) => {
                found = Some(p);
            },
            None => {},
        }
        match edge_check(self, wall.0.p2, wall.0.p3) {
            Some(p) => {
                found = Some(p);
            },
            None => {},
        }
        match edge_check(self, wall.0.p3, wall.0.p4) {
            Some(p) => {
                found = Some(p);
            },
            None => {},
        }
        match edge_check(self, wall.0.p4, wall.0.p1) {
            Some(p) => {
                found = Some(p);
            },
            None => {},
        }
        found
    }

    /// The nearest accepted hit over all walls, with its squared distance
    /// from the ray origin; `None` when no wall is met.
    pub fn find_nearest_intersection(&self, walls: &Vec<Wall>) -> (res: Option<(Vec2Fx, i64)>)
        requires
            ok_point(self.origin),
            ok_dir(self.direction),
            forall|i: int|
                0 <= i < walls@.len() ==> {
                    &&& ok_point((#[trigger] walls@[i]).0.p1)
                    &&& ok_point(walls@[i].0.p2)
                    &&& ok_point(walls@[i].0.p3)
                    &&& ok_point(walls@[i].0.p4)
                },
        ensures
            match res {
                Some(pd) => nearest_hit(*self, walls@) == Some((pd.0, pd.1 as int)) && hit_pt_ok(
                    pd.0,
                ) && 0 <= pd.1 <= 40_000_000_000_000_000,
                None => nearest_hit(*self, walls@) is None,
            },
    {
        let mut best: Option<(Vec2Fx, i64)> = None;
        let mut i: usize = 0;
        while i < walls.len()
            invariant
                i <= walls@.len(),
                ok_point(self.origin),
                ok_dir(self.direction),
                forall|k: int|
                    0 <= k < walls@.len() ==> {
                        &&& ok_point((#[trigger] walls@[k]).0.p1)
                        &&& ok_point(walls@[k].0.p2)
                        &&& ok_point(walls@[k].0.p3)
                        &&& ok_point(walls@[k].0.p4)
                    },
                match best {
                    Some(pd) => nearest_hit(*self, walls@.take(i as int)) == Some((
                        pd.0,
                        pd.1 as int,
                    )) && hit_pt_ok(pd.0) && 0 <= pd.1 <= 40_000_000_000_000_000,
                    None => nearest_hit(*self, walls@.take(i as int)) is None,
                },
            decreases walls@.len() - i,
        {
            let w = *walls.get(i).unwrap();
            proof {
                assert(walls@.take(i + 1).drop_last() == walls@.take(i as int));
                assert(walls@.take(i + 1).last() == walls@[i as int]);
            }
            match self.intersect(&w) {
                Some(p) => {
                    let dx: i64 = p.x - self.origin.x;
                    let dy: i64 = p.y - self.origin.y;
                    proof {
                        assert(0 <= dx as int * dx <= 140_000_000i64 as int
                            * 140_000_000) by (nonlinear_arith)
                            requires
                                -140_000_000 <= dx <= 140_000_000,
                        ;
                        assert(0 <= dy as int * dy <= 140_000_000i64 as int
                            * 140_000_000) by (nonlinear_arith)
                            requires
                                -140_000_000 <= dy <= 140_000_000,
                        ;
                    }
                    let d: i64 = dx * dx + dy * dy;
                    let replace: bool = match best {
                        Some(pd) => d < pd.1,
                        None => true,
                    };
                    if replace {
                        best = Some((p, d));
                    }
                },
                None => {},
            }
            i += 1;
        }
        proof {
            assert(walls@.take(walls@.len() as int) == walls@);
        }
        best
    }
}

} // verus!
