use vstd::prelude::*;

use crate::fixed::{clamp_spec, fx_mul, tdiv};
use crate::geometry::{ok_point, rotate_spec, segs_cross, Vec2Fx};
use crate::maze::{maze_wf, Maze, Rectangle, StartDirection, Wall};
use crate::mouse::{
    config_wf, deg_to_rad, mouse_step_spec, mouse_wf, sensor_wf, MouseConfig, Micromouse, Sensor,
    DIM_LIMIT, POS_LIMIT,
};
use crate::ray::{nearest_hit, Ray};
use crate::trig::{cos_spec, sin_spec, DOWN, LEFT, RIGHT, TAU_FX, UP};

verus! {

/// Largest raw frame time accepted, in thousandths of a second, before
/// time scaling.
pub const RAW_DT_LIMIT: i64 = 60_000;

/// The time-scale multiplier stays within a tenth and ten times real
/// rate, in thousandths.
pub const TIME_SCALE_MIN: i64 = 100;

pub const TIME_SCALE_MAX: i64 = 10_000;

/// The five corners of the vehicle's outline: a rectangle plus the nose
/// triangle's apex. One computation shared by sensing, collision and
/// rendering.
#[derive(Clone, Copy, Debug, PartialEq, Eq, Structural)]
pub struct Footprint {
    pub rear_left: Vec2Fx,
    pub rear_right: Vec2Fx,
    pub front_left: Vec2Fx,
    pub front_right: Vec2Fx,
    pub front_center: Vec2Fx,
}

pub open spec fn vadd(a: Vec2Fx, b: Vec2Fx) -> Vec2Fx {
    Vec2Fx { x: (a.x + b.x) as i64, y: (a.y + b.y) as i64 }
}

/// The footprint corners: half-extents rotated by the heading around the
/// position, with the nose apex half a length plus half a width ahead.
pub open spec fn footprint_spec(pos: Vec2Fx, h: int, width: int, length: int) -> Footprint {
    let hw = tdiv(width, 2);
    let hl = tdiv(length, 2);
    Footprint {
        rear_left: vadd(pos, rotate_spec(Vec2Fx { x: (-hl) as i64, y: (-hw) as i64 }, h)),
        rear_right: vadd(pos, rotate_spec(Vec2Fx { x: (-hl) as i64, y: hw as i64 }, h)),
        front_left: vadd(pos, rotate_spec(Vec2Fx { x: hl as i64, y: (-hw) as i64 }, h)),
        front_right: vadd(pos, rotate_spec(Vec2Fx { x: hl as i64, y: hw as i64 }, h)),
        front_center: vadd(pos, rotate_spec(Vec2Fx { x: (hl + hw) as i64, y: 0 }, h)),
    }
}

/// Compute the vehicle's five outline corners.
pub fn footprint(pos: Vec2Fx, heading: i64, width: i64, length: i64) -> (r: Footprint)
    requires
        -POS_LIMIT <= pos.x <= POS_LIMIT,
        -POS_LIMIT <= pos.y <= POS_LIMIT,
        0 <= heading < TAU_FX,
        0 <= width <= DIM_LIMIT,
        0 <= length <= DIM_LIMIT,
    ensures
        r == footprint_spec(pos, heading as int, width as int, length as int),
        ok_point(r.rear_left) && ok_point(r.rear_right) && ok_point(r.front_left) && ok_point(
            r.front_right,
        ) && ok_point(r.front_center),
{
    let hw: i64 = width / 2;
    let hl: i64 = length / 2;
    proof {
        crate::geometry::lemma_rotate_bounded(
            Vec2Fx { x: (-hl) as i64, y: (-hw) as i64 },
            heading as int,
            2_000_000,
        );
        crate::geometry::lemma_rotate_bounded(
            Vec2Fx { x: (-hl) as i64, y: hw },
            heading as int,
            2_000_000,
        );
        crate::geometry::lemma_rotate_bounded(
            Vec2Fx { x: hl, y: (-hw) as i64 },
            heading as int,
            2_000_000,
        );
        crate::geometry::lemma_rotate_bounded(Vec2Fx { x: hl, y: hw }, heading as int, 2_000_000);
        crate::geometry::lemma_rotate_bounded(
            Vec2Fx { x: (hl + hw) as i64, y: 0 },
            heading as int,
            2_000_000,
        );
    }
    let rl = crate::geometry::rotate(Vec2Fx { x: -hl, y: -hw }, heading);
    let rr = crate::geometry::rotate(Vec2Fx { x: -hl, y: hw }, heading);
    let fl = crate::geometry::rotate(Vec2Fx { x: hl, y: -hw }, heading);
    let fr = crate::geometry::rotate(Vec2Fx { x: hl, y: hw }, heading);
    let fc = crate::geometry::rotate(Vec2Fx { x: hl + hw, y: 0 }, heading);
    Footprint {
        rear_left: Vec2Fx { x: pos.x + rl.x, y: pos.y + rl.y },
        rear_right: Vec2Fx { x: pos.x + rr.x, y: pos.y + rr.y },
        front_left: Vec2Fx { x: pos.x + fl.x, y: pos.y + fl.y },
        front_right: Vec2Fx { x: pos.x + fr.x, y: pos.y + fr.y },
        front_center: Vec2Fx { x: pos.x + fc.x, y: pos.y + fc.y },
    }
}

/// Whether the segment `pq` properly crosses any edge of the wall
/// quadrilateral.
pub open spec fn seg_hits_rect(p: Vec2Fx, q: Vec2Fx, w: Rectangle) -> bool {
    ||| segs_cross(p, q, w.p1, w.p2)
    ||| segs_cross(p, q, w.p2, w.p3)
    ||| segs_cross(p, q, w.p3, w.p4)
    ||| segs_cross(p, q, w.p4, w.p1)
}

/// Whether any edge of the rectangle `abcd` crosses any wall edge.
pub open spec fn rect_collision(a: Vec2Fx, b: Vec2Fx, c: Vec2Fx, d: Vec2Fx, w: Rectangle) -> bool {
    ||| seg_hits_rect(a, b, w)
    ||| seg_hits_rect(b, c, w)
    ||| seg_hits_rect(c, d, w)
    ||| seg_hits_rect(d, a, w)
}

/// Whether any edge of the triangle `abc` crosses any wall edge.
pub open spec fn tri_collision(a: Vec2Fx, b: Vec2Fx, c: Vec2Fx, w: Rectangle) -> bool {
    ||| seg_hits_rect(a, b, w)
    ||| seg_hits_rect(b, c, w)
    ||| seg_hits_rect(c, a, w)
}

/// The footprint touches a wall when its rectangle or its nose triangle
/// crosses the wall's outline.
pub open spec fn footprint_hits_wall(fp: Footprint, w: Rectangle) -> bool {
    ||| rect_collision(fp.rear_left, fp.front_left, fp.front_right, fp.rear_right, w)
    ||| tri_collision(fp.front_left, fp.front_right, fp.front_center, w)
}

pub open spec fn collision_any(fp: Footprint, walls: Seq<Wall>) -> bool {
    exists|i: int| 0 <= i < walls.len() && footprint_hits_wall(fp, (#[trigger] walls[i]).0)
}

fn seg_hits_rect_e(p: Vec2Fx, q: Vec2Fx, w: &Rectangle) -> (r: bool)
    requires
        ok_point(p),
        ok_point(q),
        ok_point(w.p1),
        ok_point(w.p2),
        ok_point(w.p3),
        ok_point(w.p4),
    ensures
        r == seg_hits_rect(p, q, *w),
{
    ||| crate::geometry::lines_intersect(p, q, w.p1, w.p2)
    ||| crate::geometry::lines_intersect(p, q, w.p2, w.p3)
    ||| crate::geometry::lines_intersect(p, q, w.p3, w.p4)
    ||| crate::geometry::lines_intersect(p, q, w.p4, w.p1)
}

/// Whether any edge of the rectangle `p1..p4` properly crosses any edge
/// of the wall.
pub fn rectangle_wall_collision(p1: Vec2Fx, p2: Vec2Fx, p3: Vec2Fx, p4: Vec2Fx, wall: &Wall) -> (r:
    bool)
    requires
        ok_point(p1),
        ok_point(p2),
        ok_point(p3),
        ok_point(p4),
        ok_point(wall.0.p1),
        ok_point(wall.0.p2),
        ok_point(wall.0.p3),
        ok_point(wall.0.p4),
    ensures
        r == rect_collision(p1, p2, p3, p4, wall.0),
{
    ||| seg_hits_rect_e(p1, p2, &wall.0)
    ||| seg_hits_rect_e(p2, p3, &wall.0)
    ||| seg_hits_rect_e(p3, p4, &wall.0)
    ||| seg_hits_rect_e(p4, p1, &wall.0)
}

/// Whether any edge of the triangle `abc` properly crosses any edge of
/// the wall.
pub fn triangle_wall_collision(a: Vec2Fx, b: Vec2Fx, c: Vec2Fx, wall: &Wall) -> (r: bool)
    requires
        ok_point(a),
        ok_point(b),
        ok_point(c),
        ok_point(wall.0.p1),
        ok_point(wall.0.p2),
        ok_point(wall.0.p3),
        ok_point(wall.0.p4),
    ensures
        r == tri_collision(a, b, c, wall.0),
{
    ||| seg_hits_rect_e(a, b, &wall.0)
    ||| seg_hits_rect_e(b, c, &wall.0)
    ||| seg_hits_rect_e(c, a, &wall.0)
}

/// Inclusive containment in the finish rectangle, `p1` its minimum and
/// `p3` its maximum corner.
pub open spec fn in_finish(f: Rectangle, p: Vec2Fx) -> bool {
    f.p1.x <= p.x <= f.p3.x && f.p1.y <= p.y <= f.p3.y
}

/// The world ray a sensor casts: its mount offset rotated by the heading
/// and added to the position, pointing along heading plus mount angle.
pub open spec fn sensor_ray(m: Micromouse, s: Sensor) -> Ray {
    let rp = rotate_spec(s.position_offset, m.orientation as int);
    let a = (m.orientation + s.angle) % (TAU_FX as int);
    Ray {
        origin: Vec2Fx { x: (m.position.x + rp.x) as i64, y: (m.position.y + rp.y) as i64 },
        direction: Vec2Fx { x: cos_spec(a) as i64, y: sin_spec(a) as i64 },
    }
}

/// A sensor after one sensing pass: the nearest hit overwrites the
/// reading and hit point; with no hit the previous reading is retained,
/// deliberately.
pub open spec fn sensed_sensor(s: Sensor, m: Micromouse, walls: Seq<Wall>) -> Sensor {
    match nearest_hit(sensor_ray(m, s), walls) {
        Some(pd) => Sensor { value: pd.1 as i64, closest_point: pd.0, ..s },
        None => s,
    }
}

pub open spec fn dir_angle(d: StartDirection) -> int {
    match d {
        StartDirection::Up => UP as int,
        StartDirection::Right => RIGHT as int,
        StartDirection::Down => DOWN as int,
        StartDirection::Left => LEFT as int,
    }
}

/// The simulation: the vehicle, the maze it runs in, the two monotonic
/// terminal flags, and the time-scale multiplier. The control script
/// itself lives outside; it sees the vehicle only through snapshots.
#[derive(Debug)]
pub struct Simulation {
    pub mouse: Micromouse,
    pub collided: bool,
    pub finished: bool,
    pub maze: Maze,
    pub time_scale: i64,
}

pub open spec fn sim_wf(s: Simulation) -> bool {
    &&& mouse_wf(s.mouse)
    &&& maze_wf(s.maze.model())
    &&& TIME_SCALE_MIN <= s.time_scale <= TIME_SCALE_MAX
}

impl Simulation {
    /// Build a simulation from a world maze and a vehicle configuration:
    /// the vehicle starts at the maze's start position facing its start
    /// direction, both flags clear, at real-time rate.
    pub fn new(maze: Maze, mouse_config: MouseConfig) -> (r: Simulation)
        requires
            maze_wf(maze.model()),
            config_wf(mouse_config),
        ensures
            sim_wf(r),
            !r.collided,
            !r.finished,
            r.time_scale == 1000,
            r.maze == maze,
            r.mouse.position == maze.start,
            r.mouse.orientation == dir_angle(maze.start_direction),
            r.mouse.left_power == 0 && r.mouse.right_power == 0,
            r.mouse.left_velocity == 0 && r.mouse.right_velocity == 0,
            r.mouse.left_encoder == 0 && r.mouse.right_encoder == 0,
            r.mouse.width == mouse_config.width,
            r.mouse.length == mouse_config.length,
            r.mouse.tire_friction == mouse_config.tire_friction,
            r.mouse.wheel_base == mouse_config.wheel_base,
            r.mouse.wheel_radius == mouse_config.wheel_radius,
            r.mouse.max_speed == mouse_config.max_speed,
            r.mouse.mass == mouse_config.mass,
            r.mouse.encoder_resolution == mouse_config.encoder_resolution,
            r.mouse.sensors@.len() == mouse_config.sensors@.len(),
            forall|i: int|
                0 <= i < mouse_config.sensors@.len() ==> {
                    &&& (#[trigger] r.mouse.sensors@[i]).name == mouse_config.sensors@[i].name
                    &&& r.mouse.sensors@[i].position_offset
                        == mouse_config.sensors@[i].position_offset
                    &&& r.mouse.sensors@[i].angle == deg_to_rad(
                        mouse_config.sensors@[i].angle as int,
                    )
                    &&& r.mouse.sensors@[i].value == mouse_config.sensors@[i].value
                    &&& r.mouse.sensors@[i].closest_point
                        == mouse_config.sensors@[i].closest_point
                },
    {
        let heading: i64 = match maze.start_direction {
            StartDirection::Up => UP,
            StartDirection::Right => RIGHT,
            StartDirection::Down => DOWN,
            StartDirection::Left => LEFT,
        };
        let start = maze.start;
        let mouse = Micromouse::new(mouse_config, start, heading);
        Simulation { mouse, collided: false, finished: false, maze, time_scale: 1000 }
    }

    /// Whether script-driven control is still permitted: a collision,
    /// once it happens, disables the script for the rest of the run.
    pub fn control_allowed(&self) -> (r: bool)
        ensures
            r == !self.collided,
    {
        !self.collided
    }

    /// Change the simulation rate, clamped to the allowed range.
    pub fn set_time_scale(&mut self, ts: i64)
        ensures
            final(self).time_scale == clamp_spec(
                ts as int,
                TIME_SCALE_MIN as int,
                TIME_SCALE_MAX as int,
            ),
            *final(self) == (Simulation { time_scale: final(self).time_scale, ..*old(self) }),
    {
        self.time_scale = crate::fixed::clamp_i64(ts, TIME_SCALE_MIN, TIME_SCALE_MAX);
    }

    fn check_collisions(&self) -> (r: bool)
        requires
            sim_wf(*self),
        ensures
            r == collision_any(
                footprint_spec(
                    self.mouse.position,
                    self.mouse.orientation as int,
                    self.mouse.width as int,
                    self.mouse.length as int,
                ),
                self.maze.walls@,
            ),
    {
        let fp = footprint(
            self.mouse.position,
            self.mouse.orientation,
            self.mouse.width,
            self.mouse.length,
        );
        let mut i: usize = 0;
        while i < self.maze.walls.len()
            invariant
                i <= self.maze.walls@.len(),
                sim_wf(*self),
                fp == footprint_spec(
                    self.mouse.position,
                    self.mouse.orientation as int,
                    self.mouse.width as int,
                    self.mouse.length as int,
                ),
                ok_point(fp.rear_left) && ok_point(fp.rear_right) && ok_point(fp.front_left)
                    && ok_point(fp.front_right) && ok_point(fp.front_center),
                forall|k: int|
                    0 <= k < i ==> !footprint_hits_wall(fp, (#[trigger] self.maze.walls@[k]).0),
            decreases self.maze.walls@.len() - i,
        {
            let w = *self.maze.walls.get(i).unwrap();
            proof {
                assert(crate::maze::rect_wf(self.maze.model().walls[i as int].0));
            }
            if rectangle_wall_collision(fp.rear_left, fp.front_left, fp.front_right, fp.rear_right, &w)
                || triangle_wall_collision(fp.front_left, fp.front_right, fp.front_center, &w) {
                return true;
            }
            i += 1;
        }
        false
    }

    /// One simulation tick: scale the frame time, advance the vehicle,
    /// recompute every sensor against the walls, then latch the two
    /// monotonic flags — collision from the footprint test, finish from
    /// inclusive containment in the finish rectangle.
    pub fn update(&mut self, dt: i64)
        requires
            sim_wf(*old(self)),
            0 <= dt <= RAW_DT_LIMIT,
        ensures
            ({
                let o = *old(self);
                let dts = fx_mul(dt as int, o.time_scale as int);
                let moved = mouse_step_spec(o.mouse, o.maze.friction as int, dts);
                &&& final(self).mouse == (Micromouse {
                    sensors: final(self).mouse.sensors,
                    ..moved
                })
                &&& final(self).mouse.sensors@.len() == o.mouse.sensors@.len()
                &&& (forall|i: int|
                    0 <= i < o.mouse.sensors@.len() ==> final(self).mouse.sensors@[i]
                        == sensed_sensor(#[trigger] o.mouse.sensors@[i], moved, o.maze.walls@))
                &&& final(self).collided == (o.collided || collision_any(
                    footprint_spec(
                        moved.position,
                        moved.orientation as int,
                        moved.width as int,
                        moved.length as int,
                    ),
                    o.maze.walls@,
                ))
                &&& final(self).finished == (o.finished || in_finish(
                    o.maze.finish,
                    moved.position,
                ))
            }),
            old(self).collided ==> final(self).collided,
            old(self).finished ==> final(self).finished,
            final(self).time_scale == old(self).time_scale,
            final(self).maze == old(self).maze,
            sim_wf(*final(self)),
    {
        proof {
            assert(0 <= dt as int * self.time_scale <= RAW_DT_LIMIT as int
                * TIME_SCALE_MAX) by (nonlinear_arith)
                requires
                    0 <= dt <= RAW_DT_LIMIT,
                    0 < self.time_scale <= TIME_SCALE_MAX,
            ;
            crate::geometry::lemma_tdiv_bound(
                dt as int * self.time_scale,
                1000,
                RAW_DT_LIMIT as int * TIME_SCALE_MAX / 1000,
            );
            crate::fixed::lemma_tdiv_abs(dt as int * self.time_scale, 1000);
        }
        let dt_scaled: i64 = crate::fixed::div_trunc(dt * self.time_scale, 1000);
        self.mouse.update(dt_scaled, self.maze.friction);
        let ghost moved = self.mouse;
        let n = self.mouse.sensors.len();
        let mut i: usize = 0;
        while i < n
            invariant
                i <= n,
                n == self.mouse.sensors@.len(),
                mouse_wf(self.mouse),
                maze_wf(self.maze.model()),
                moved == mouse_step_spec(
                    old(self).mouse,
                    old(self).maze.friction as int,
                    fx_mul(dt as int, old(self).time_scale as int),
                ),
                self.maze == old(self).maze,
                self.collided == old(self).collided,
                self.finished == old(self).finished,
                self.time_scale == old(self).time_scale,
                TIME_SCALE_MIN <= self.time_scale <= TIME_SCALE_MAX,
                self.mouse == (Micromouse { sensors: self.mouse.sensors, ..moved }),
                self.mouse.sensors@.len() == moved.sensors@.len(),
                forall|k: int|
                    i <= k < moved.sensors@.len() ==> self.mouse.sensors@[k] == moved.sensors@[k],
                forall|k: int|
                    0 <= k < i ==> self.mouse.sensors@[k] == sensed_sensor(
                        #[trigger] moved.sensors@[k],
                        moved,
                        self.maze.walls@,
                    ),
            decreases n - i,
        {
            let off = self.mouse.sensors.get(i).unwrap().position_offset;
            let ang = self.mouse.sensors.get(i).unwrap().angle;
            proof {
                assert(sensor_wf(self.mouse.sensors@[i as int]));
                crate::geometry::lemma_rotate_bounded(
                    off,
                    self.mouse.orientation as int,
                    1_000_000,
                );
            }
            let rp = crate::geometry::rotate(off, self.mouse.orientation);
            let origin = Vec2Fx { x: self.mouse.position.x + rp.x, y: self.mouse.position.y + rp.y };
            let a: i64 = crate::trig::normalize_angle(self.mouse.orientation + ang);
            let dirx: i64 = crate::trig::cos_fx(a);
            let diry: i64 = crate::trig::sin_fx(a);
            let ray = Ray { origin, direction: Vec2Fx { x: dirx, y: diry } };
            proof {
                assert forall|k: int| 0 <= k < self.maze.walls@.len() implies {
                    &&& ok_point((#[trigger] self.maze.walls@[k]).0.p1)
                    &&& ok_point(self.maze.walls@[k].0.p2)
                    &&& ok_point(self.maze.walls@[k].0.p3)
                    &&& ok_point(self.maze.walls@[k].0.p4)
                } by {
                    assert(crate::maze::rect_wf(self.maze.model().walls[k].0));
                }
                assert(ray == sensor_ray(moved, moved.sensors@[i as int]));
            }
            match ray.find_nearest_intersection(&self.maze.walls) {
                Some(pd) => {
                    self.mouse.sensors[i].value = pd.1;
                    self.mouse.sensors[i].closest_point = pd.0;
                    proof {
                        assert(self.mouse.sensors@[i as int] == sensed_sensor(
                            moved.sensors@[i as int],
                            moved,
                            self.maze.walls@,
                        ));
                    }
                },
                None => {
                    proof {
                        assert(self.mouse.sensors@[i as int] == sensed_sensor(
                            moved.sensors@[i as int],
                            moved,
                            self.maze.walls@,
                        ));
                    }
                },
            }
            i += 1;
        }
        if self.check_collisions() {
            self.collided = true;
        }
        if self.mouse.position.x >= self.maze.finish.p1.x && self.mouse.position.y
            >= self.maze.finish.p1.y && self.mouse.position.x <= self.maze.finish.p3.x
            && self.mouse.position.y <= self.maze.finish.p3.y {
            self.finished = true;
        }
    }
}

} // verus!
