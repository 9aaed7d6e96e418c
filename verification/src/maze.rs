use vstd::prelude::*;

use crate::fixed::fx_mul;
use crate::geometry::Vec2Fx;
use crate::mazeparser;
use crate::mazeparser::{init_model, model_wf, parse_from, MazeModel, MazeParseError, Orientation};
use vstd::string::StringSliceAdditionalSpecFns;

pub use crate::mazeparser::StartDirection;

verus! {

/// Largest cell size, in thousandths of a world unit, that the world
/// mapping accepts.
pub const CELL_SIZE_LIMIT: i64 = 50_000;

/// Bound on every world-space coordinate a mapped maze can hold.
pub const WORLD_LIMIT: i64 = 10_030_000;

/// A wall's extrusion along its short axis: one world unit.
pub const WALL_THICKNESS: i64 = 1000;

/// An axis-aligned or extruded quadrilateral, by its four corners.
#[derive(Clone, Copy, Debug, PartialEq, Eq, Structural)]
pub struct Rectangle {
    pub p1: Vec2Fx,
    pub p2: Vec2Fx,
    pub p3: Vec2Fx,
    pub p4: Vec2Fx,
}

/// A maze wall in world space: the segment's endpoints extruded to a thin
/// quadrilateral.
#[derive(Clone, Copy, Debug, PartialEq, Eq, Structural)]
pub struct Wall(pub Rectangle);

/// A maze mapped into world coordinates: wall quadrilaterals, surface
/// friction, the start pose, and the finish rectangle with `p1` its
/// minimum and `p3` its maximum corner.
#[derive(Debug)]
pub struct Maze {
    pub walls: Vec<Wall>,
    pub friction: i64,
    pub start: Vec2Fx,
    pub start_direction: StartDirection,
    pub finish: Rectangle,
}

/// Mathematical view of a world-space maze.
pub ghost struct WorldModel {
    pub walls: Seq<Wall>,
    pub friction: i64,
    pub start: Vec2Fx,
    pub start_direction: StartDirection,
    pub finish: Rectangle,
}

impl Maze {
    pub open spec fn model(&self) -> WorldModel {
        WorldModel {
            walls: self.walls@,
            friction: self.friction,
            start: self.start,
            start_direction: self.start_direction,
            finish: self.finish,
        }
    }
}

pub open spec fn scale_pt(p: Vec2Fx, cs: int) -> Vec2Fx {
    Vec2Fx { x: fx_mul(p.x as int, cs) as i64, y: fx_mul(p.y as int, cs) as i64 }
}

/// The world quadrilateral of one cell-space wall segment: both endpoints
/// scaled by the cell size, then extruded one unit along the short axis.
pub open spec fn world_wall(w: mazeparser::Wall, cs: int) -> Wall {
    let a = scale_pt(w.start, cs);
    let b = scale_pt(w.end, cs);
    match w.orientation {
        Orientation::Horizontal => Wall(
            Rectangle {
                p1: a,
                p2: b,
                p3: Vec2Fx { x: b.x, y: (b.y + WALL_THICKNESS) as i64 },
                p4: Vec2Fx { x: a.x, y: (a.y + WALL_THICKNESS) as i64 },
            },
        ),
        Orientation::Vertical => Wall(
            Rectangle {
                p1: a,
                p2: b,
                p3: Vec2Fx { x: (b.x + WALL_THICKNESS) as i64, y: b.y },
                p4: Vec2Fx { x: (a.x + WALL_THICKNESS) as i64, y: a.y },
            },
        ),
    }
}

pub open spec fn min_i(a: int, b: int) -> int {
    if a <= b {
        a
    } else {
        b
    }
}

pub open spec fn max_i(a: int, b: int) -> int {
    if a >= b {
        a
    } else {
        b
    }
}

/// The finish rectangle in world space, normalized so that `p1` is the
/// componentwise minimum corner and `p3` the maximum.
pub open spec fn world_finish(f: mazeparser::Finish, cs: int) -> Rectangle {
    let a = scale_pt(f.start, cs);
    let b = scale_pt(f.end, cs);
    let lox = min_i(a.x as int, b.x as int);
    let hix = max_i(a.x as int, b.x as int);
    let loy = min_i(a.y as int, b.y as int);
    let hiy = max_i(a.y as int, b.y as int);
    Rectangle {
        p1: Vec2Fx { x: lox as i64, y: loy as i64 },
        p2: Vec2Fx { x: lox as i64, y: hiy as i64 },
        p3: Vec2Fx { x: hix as i64, y: hiy as i64 },
        p4: Vec2Fx { x: hix as i64, y: loy as i64 },
    }
}

/// The whole world mapping of a parsed cell-space maze.
pub open spec fn to_world_spec(m: MazeModel, cs: int) -> WorldModel {
    WorldModel {
        walls: m.walls.map_values(|w: mazeparser::Wall| world_wall(w, cs)),
        friction: m.friction as i64,
        start: scale_pt(m.start, cs),
        start_direction: m.start_direction,
        finish: world_finish(m.finish, cs),
    }
}

pub open spec fn pt_within(p: Vec2Fx, m: int) -> bool {
    -m <= p.x <= m && -m <= p.y <= m
}

pub open spec fn rect_wf(r: Rectangle) -> bool {
    pt_within(r.p1, WORLD_LIMIT as int) && pt_within(r.p2, WORLD_LIMIT as int) && pt_within(
        r.p3,
        WORLD_LIMIT as int,
    ) && pt_within(r.p4, WORLD_LIMIT as int)
}

/// Well-formedness of a world maze: every coordinate bounded, friction
/// non-negative, and the finish rectangle normalized.
pub open spec fn maze_wf(m: WorldModel) -> bool {
    &&& forall|i: int| 0 <= i < m.walls.len() ==> rect_wf((#[trigger] m.walls[i]).0)
    &&& 0 <= m.friction <= mazeparser::FRICTION_LIMIT
    &&& pt_within(m.start, WORLD_LIMIT as int)
    &&& rect_wf(m.finish)
    &&& m.finish.p1.x <= m.finish.p3.x && m.finish.p1.y <= m.finish.p3.y
}

proof fn lemma_scale_pt_bound(p: Vec2Fx, cs: int, m: int)
    requires
        0 < cs <= CELL_SIZE_LIMIT,
        m >= 0,
        -m <= p.x <= m,
        -m <= p.y <= m,
        m * CELL_SIZE_LIMIT <= 1_000_000_000_000,
    ensures
        pt_within(scale_pt(p, cs), m * CELL_SIZE_LIMIT / 1000),
{
    assert(-(m * CELL_SIZE_LIMIT) <= p.x * cs <= m * CELL_SIZE_LIMIT) by (nonlinear_arith)
        requires
            0 < cs <= CELL_SIZE_LIMIT,
            m >= 0,
            -m <= p.x <= m,
    ;
    assert(-(m * CELL_SIZE_LIMIT) <= p.y * cs <= m * CELL_SIZE_LIMIT) by (nonlinear_arith)
        requires
            0 < cs <= CELL_SIZE_LIMIT,
            m >= 0,
            -m <= p.y <= m,
    ;
    crate::geometry::lemma_tdiv_bound(p.x * cs, 1000, m * CELL_SIZE_LIMIT / 1000);
    crate::geometry::lemma_tdiv_bound(p.y * cs, 1000, m * CELL_SIZE_LIMIT / 1000);
}

fn scale_coord(a: i64, cs: i64) -> (r: i64)
    requires
        0 < cs <= CELL_SIZE_LIMIT,
        -1_000_000 <= a <= 1_000_000,
    ensures
        r == fx_mul(a as int, cs as int),
        -50_000_000 <= r <= 50_000_000,
{
    proof {
        assert(-(1_000_000 * CELL_SIZE_LIMIT) <= a as int * cs <= 1_000_000
            * CELL_SIZE_LIMIT) by (nonlinear_arith)
            requires
                0 < cs <= CELL_SIZE_LIMIT,
                -1_000_000 <= a <= 1_000_000,
        ;
        crate::geometry::lemma_tdiv_bound(a as int * cs, 1000, 50_000_000);
    }
    crate::fixed::div_trunc(a * cs, 1000)
}

impl Maze {
    /// Parse directive text and map the result into world space with the
    /// given cell size. No partial maze is ever returned: the first
    /// failing line aborts the whole load.
    pub fn from_string(s: &str, cell_size: i64) -> (r: Result<Maze, MazeParseError>)
        requires
            s.spec_bytes().len() < usize::MAX,
            0 < cell_size <= CELL_SIZE_LIMIT,
        ensures
            match r {
                Ok(m) => {
                    &&& parse_from(s.spec_bytes(), 1, init_model()) matches Ok(cm)
                    &&& m.model() == to_world_spec(
                        parse_from(s.spec_bytes(), 1, init_model())->Ok_0,
                        cell_size as int,
                    )
                    &&& maze_wf(m.model())
                },
                Err(e) => parse_from(s.spec_bytes(), 1, init_model()) == Err::<
                    MazeModel,
                    MazeParseError,
                >(e),
            },
    {
        let cm = match mazeparser::Maze::from_str(s) {
            Ok(cm) => cm,
            Err(e) => {
                return Err(e);
            },
        };
        let ghost cmod = cm.model();
        let mut walls: Vec<Wall> = Vec::new();
        let mut i: usize = 0;
        while i < cm.walls.len()
            invariant
                i <= cm.walls@.len(),
                model_wf(cmod),
                cmod == cm.model(),
                0 < cell_size <= CELL_SIZE_LIMIT,
                walls@.len() == i as int,
                forall|k: int|
                    0 <= k < i ==> walls@[k] == world_wall(cmod.walls[k], cell_size as int),
                forall|k: int| 0 <= k < i ==> rect_wf((#[trigger] walls@[k]).0),
            decreases cm.walls@.len() - i,
        {
            let cw = *cm.walls.get(i).unwrap();
            proof {
                lemma_scale_pt_bound(cw.start, cell_size as int, mazeparser::CELL_COORD_LIMIT as int);
                lemma_scale_pt_bound(cw.end, cell_size as int, mazeparser::CELL_COORD_LIMIT as int);
            }
            let ax = scale_coord(cw.start.x, cell_size);
            let ay = scale_coord(cw.start.y, cell_size);
            let bx = scale_coord(cw.end.x, cell_size);
            let by = scale_coord(cw.end.y, cell_size);
            let w = match cw.orientation {
                Orientation::Horizontal => Wall(
                    Rectangle {
                        p1: Vec2Fx { x: ax, y: ay },
                        p2: Vec2Fx { x: bx, y: by },
                        p3: Vec2Fx { x: bx, y: by + WALL_THICKNESS },
                        p4: Vec2Fx { x: ax, y: ay + WALL_THICKNESS },
                    },
                ),
                Orientation::Vertical => Wall(
                    Rectangle {
                        p1: Vec2Fx { x: ax, y: ay },
                        p2: Vec2Fx { x: bx, y: by },
                        p3: Vec2Fx { x: bx + WALL_THICKNESS, y: by },
                        p4: Vec2Fx { x: ax + WALL_THICKNESS, y: ay },
                    },
                ),
            };
            walls.push(w);
            i += 1;
        }
        proof {
            lemma_scale_pt_bound(
                cmod.start,
                cell_size as int,
                mazeparser::CELL_COORD_LIMIT as int + 500,
            );
            lemma_scale_pt_bound(
                cmod.finish.start,
                cell_size as int,
                mazeparser::CELL_COORD_LIMIT as int,
            );
            lemma_scale_pt_bound(
                cmod.finish.end,
                cell_size as int,
                mazeparser::CELL_COORD_LIMIT as int,
            );
        }
        let sx = scale_coord(cm.start.x, cell_size);
        let sy = scale_coord(cm.start.y, cell_size);
        let f1x = scale_coord(cm.finish.start.x, cell_size);
        let f1y = scale_coord(cm.finish.start.y, cell_size);
        let f2x = scale_coord(cm.finish.end.x, cell_size);
        let f2y = scale_coord(cm.finish.end.y, cell_size);
        let lox = if f1x <= f2x {
            f1x
        } else {
            f2x
        };
        let hix = if f1x >= f2x {
            f1x
        } else {
            f2x
        };
        let loy = if f1y <= f2y {
            f1y
        } else {
            f2y
        };
        let hiy = if f1y >= f2y {
            f1y
        } else {
            f2y
        };
        let m = Maze {
            walls,
            friction: cm.friction,
            start: Vec2Fx { x: sx, y: sy },
            start_direction: cm.start_direction,
            finish: Rectangle {
                p1: Vec2Fx { x: lox, y: loy },
                p2: Vec2Fx { x: lox, y: hiy },
                p3: Vec2Fx { x: hix, y: hiy },
                p4: Vec2Fx { x: hix, y: loy },
            },
        };
        proof {
            assert(m.model().walls =~= cmod.walls.map_values(
                |w: mazeparser::Wall| world_wall(w, cell_size as int),
            ));
            assert(m.model() =~= to_world_spec(cmod, cell_size as int));
        }
        Ok(m)
    }
}

} // verus!
