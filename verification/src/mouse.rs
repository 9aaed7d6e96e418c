use vstd::prelude::*;

use crate::engine::{MouseData, SensorInfo, Sensors, POWER_LIMIT};
use crate::fixed::{clamp_spec, fx_div, fx_mul, tdiv};
use crate::geometry::Vec2Fx;
use crate::mazeparser::FRICTION_LIMIT;
use crate::trig::{cos_spec, sin_spec, PI_FX, TAU_FX};

verus! {

/// Positions saturate at this world bound instead of overflowing.
pub const POS_LIMIT: i64 = 12_000_000;

/// Largest accepted physical dimension (wheelbase, radius, width,
/// length), in thousandths of a unit.
pub const DIM_LIMIT: i64 = 2_000_000;

/// Largest accepted sensor mounting offset component.
pub const OFFSET_LIMIT: i64 = 1_000_000;

/// Largest accepted top speed, in thousandths of a unit per second.
pub const MAX_SPEED_LIMIT: i64 = 1_000_000;

/// Largest accepted time step, in thousandths of a second, after time
/// scaling.
pub const DT_LIMIT: i64 = 600_000;

/// Largest accepted encoder resolution, in ticks per revolution.
pub const ENC_RES_LIMIT: u64 = 1_000_000;

/// Largest accepted sensor mounting angle in thousandths of a degree.
pub const SENSOR_DEG_LIMIT: i64 = 360_000;

/// Bound on a converted mounting angle in thousandths of a radian.
pub const SENSOR_RAD_LIMIT: i64 = 6300;

/// Bound on a stored sensor reading (a squared distance).
pub const SENSOR_VALUE_LIMIT: i64 = 40_000_000_000_000_000;

/// Bound on a stored sensor hit point component.
pub const SENSOR_POINT_LIMIT: i64 = 120_000_000;

pub open spec fn abs_i(v: int) -> int {
    if v >= 0 {
        v
    } else {
        -v
    }
}

/// A sensor mount plus its retained last reading. The configured angle
/// is in thousandths of a degree; construction converts it to
/// thousandths of a radian.
#[derive(Debug)]
pub struct Sensor {
    pub name: String,
    pub position_offset: Vec2Fx,
    pub angle: i64,
    pub value: i64,
    pub closest_point: Vec2Fx,
}

/// The immutable physical parameters a vehicle is built from.
#[derive(Debug)]
pub struct MouseConfig {
    pub wheel_base: i64,
    pub wheel_radius: i64,
    pub tire_friction: i64,
    pub mass: i64,
    pub max_speed: i64,
    pub width: i64,
    pub length: i64,
    pub encoder_resolution: u64,
    pub sensors: Vec<Sensor>,
}

pub open spec fn sensor_conf_wf(s: Sensor) -> bool {
    &&& -OFFSET_LIMIT <= s.position_offset.x <= OFFSET_LIMIT
    &&& -OFFSET_LIMIT <= s.position_offset.y <= OFFSET_LIMIT
    &&& -SENSOR_DEG_LIMIT <= s.angle <= SENSOR_DEG_LIMIT
    &&& -SENSOR_VALUE_LIMIT <= s.value <= SENSOR_VALUE_LIMIT
    &&& -SENSOR_POINT_LIMIT <= s.closest_point.x <= SENSOR_POINT_LIMIT
    &&& -SENSOR_POINT_LIMIT <= s.closest_point.y <= SENSOR_POINT_LIMIT
}

/// What a configuration must satisfy for the simulation's arithmetic to
/// stay in machine bounds.
pub open spec fn config_wf(c: MouseConfig) -> bool {
    &&& 0 < c.wheel_base <= DIM_LIMIT
    &&& 0 < c.wheel_radius <= DIM_LIMIT
    &&& 0 <= c.tire_friction <= FRICTION_LIMIT
    &&& 0 < c.mass
    &&& 0 <= c.max_speed <= MAX_SPEED_LIMIT
    &&& 0 <= c.width <= DIM_LIMIT
    &&& 0 <= c.length <= DIM_LIMIT
    &&& c.encoder_resolution <= ENC_RES_LIMIT
    &&& forall|i: int| 0 <= i < c.sensors@.len() ==> sensor_conf_wf(#[trigger] c.sensors@[i])
}

/// The vehicle: immutable physical parameters and the mutable kinematic
/// state the simulation loop owns exclusively.
#[derive(Debug)]
pub struct Micromouse {
    pub position: Vec2Fx,
    pub width: i64,
    pub length: i64,
    pub sensors: Vec<Sensor>,
    pub tire_friction: i64,
    pub orientation: i64,
    pub wheel_base: i64,
    pub left_power: i64,
    pub right_power: i64,
    pub left_encoder: u64,
    pub right_encoder: u64,
    pub encoder_resolution: u64,
    pub wheel_radius: i64,
    pub left_velocity: i64,
    pub right_velocity: i64,
    pub max_speed: i64,
    pub mass: i64,
}

pub open spec fn sensor_wf(s: Sensor) -> bool {
    &&& -OFFSET_LIMIT <= s.position_offset.x <= OFFSET_LIMIT
    &&& -OFFSET_LIMIT <= s.position_offset.y <= OFFSET_LIMIT
    &&& -SENSOR_RAD_LIMIT <= s.angle <= SENSOR_RAD_LIMIT
    &&& -SENSOR_VALUE_LIMIT <= s.value <= SENSOR_VALUE_LIMIT
    &&& -SENSOR_POINT_LIMIT <= s.closest_point.x <= SENSOR_POINT_LIMIT
    &&& -SENSOR_POINT_LIMIT <= s.closest_point.y <= SENSOR_POINT_LIMIT
}

/// The vehicle's standing invariant: parameters in range, powers
/// clamped, speeds capped, heading reduced, position inside the world.
pub open spec fn mouse_wf(m: Micromouse) -> bool {
    &&& -POS_LIMIT <= m.position.x <= POS_LIMIT
    &&& -POS_LIMIT <= m.position.y <= POS_LIMIT
    &&& 0 <= m.width <= DIM_LIMIT
    &&& 0 <= m.length <= DIM_LIMIT
    &&& 0 <= m.tire_friction <= FRICTION_LIMIT
    &&& 0 <= m.orientation < TAU_FX
    &&& 0 < m.wheel_base <= DIM_LIMIT
    &&& -POWER_LIMIT <= m.left_power <= POWER_LIMIT
    &&& -POWER_LIMIT <= m.right_power <= POWER_LIMIT
    &&& m.encoder_resolution <= ENC_RES_LIMIT
    &&& 0 < m.wheel_radius <= DIM_LIMIT
    &&& -m.max_speed <= m.left_velocity <= m.max_speed
    &&& -m.max_speed <= m.right_velocity <= m.max_speed
    &&& 0 <= m.max_speed <= MAX_SPEED_LIMIT
    &&& 0 < m.mass
    &&& forall|i: int| 0 <= i < m.sensors@.len() ==> sensor_wf(#[trigger] m.sensors@[i])
}

/// A configured mounting angle converted from thousandths of a degree to
/// thousandths of a radian.
pub open spec fn deg_to_rad(deg: int) -> int {
    tdiv(deg * PI_FX, 180_000)
}

/// The inverse conversion, used when handing angles to the script.
pub open spec fn rad_to_deg(rad: int) -> int {
    tdiv(rad * 180_000, PI_FX as int)
}

/// Wheel acceleration: motor force from the power fraction of top speed,
/// minus friction proportional to current speed applied against the
/// motor's direction, over the mass.
pub open spec fn accel_spec(power: int, vel: int, fric: int, max_speed: int, mass: int) -> int {
    let motor = fx_mul(power, max_speed);
    let fric_force = fx_mul(fric, abs_i(vel));
    let net = if motor >= 0 {
        motor - fric_force
    } else {
        motor + fric_force
    };
    fx_div(net, mass)
}

/// One integration step of a wheel's velocity, capped at top speed.
pub open spec fn new_vel_spec(
    v: int,
    power: int,
    tire: int,
    mfr: int,
    ms: int,
    mass: int,
    dt: int,
) -> int {
    clamp_spec(v + fx_mul(accel_spec(power, v, tire + mfr, ms, mass), dt), -ms, ms)
}

/// The after-integration friction decay. The continuous model can
/// diverge for extreme coefficients, so the decayed speed is capped at
/// top speed too; within the stable regime the cap never binds.
pub open spec fn decay_spec(v: int, fric: int, dt: int, ms: int) -> int {
    clamp_spec(v - fx_mul(fx_mul(v, fric), dt), -ms, ms)
}

/// Encoder ticks earned this step: distance over wheel circumference,
/// times the resolution, truncated toward zero.
pub open spec fn enc_ticks_spec(v: int, dt: int, radius: int, res: int) -> int {
    tdiv(fx_mul(v, dt) * 1000 * res, TAU_FX * radius)
}

/// Tick accumulation: negative tick counts contribute nothing, and the
/// counter saturates instead of wrapping, so it never decreases.
pub open spec fn enc_add_spec(e: int, t: int) -> int {
    let d = if t > 0 {
        t
    } else {
        0
    };
    if e + d > u64::MAX {
        u64::MAX as int
    } else {
        e + d
    }
}

/// The whole per-tick state transition of the vehicle, as one value:
/// velocities integrated and capped, heading turned and reduced, position
/// advanced along the new heading and saturated at the world bound,
/// encoders accumulated, and the friction decay applied last.
pub open spec fn mouse_step_spec(o: Micromouse, mfr: int, dt: int) -> Micromouse {
    let vl = new_vel_spec(
        o.left_velocity as int,
        o.left_power as int,
        o.tire_friction as int,
        mfr,
        o.max_speed as int,
        o.mass as int,
        dt,
    );
    let vr = new_vel_spec(
        o.right_velocity as int,
        o.right_power as int,
        o.tire_friction as int,
        mfr,
        o.max_speed as int,
        o.mass as int,
        dt,
    );
    let avg = tdiv(vl + vr, 2);
    let h = (o.orientation + fx_mul(fx_div(vl - vr, o.wheel_base as int), dt)) % (TAU_FX as int);
    let fric = o.tire_friction + mfr;
    Micromouse {
        orientation: h as i64,
        position: Vec2Fx {
            x: clamp_spec(
                o.position.x + fx_mul(fx_mul(avg, cos_spec(h)), dt),
                -POS_LIMIT as int,
                POS_LIMIT as int,
            ) as i64,
            y: clamp_spec(
                o.position.y + fx_mul(fx_mul(avg, sin_spec(h)), dt),
                -POS_LIMIT as int,
                POS_LIMIT as int,
            ) as i64,
        },
        left_velocity: decay_spec(vl, fric, dt, o.max_speed as int) as i64,
        right_velocity: decay_spec(vr, fric, dt, o.max_speed as int) as i64,
        left_encoder: enc_add_spec(
            o.left_encoder as int,
            enc_ticks_spec(vl, dt, o.wheel_radius as int, o.encoder_resolution as int),
        ) as u64,
        right_encoder: enc_add_spec(
            o.right_encoder as int,
            enc_ticks_spec(vr, dt, o.wheel_radius as int, o.encoder_resolution as int),
        ) as u64,
        ..o
    }
}

/// Law: the encoder counters never decrease across a tick, whatever the
/// powers, frictions or time step: negative travel contributes nothing
/// and accumulation saturates instead of wrapping.
pub proof fn lemma_encoders_monotone(o: Micromouse, mfr: int, dt: int)
    ensures
        mouse_step_spec(o, mfr, dt).left_encoder >= o.left_encoder,
        mouse_step_spec(o, mfr, dt).right_encoder >= o.right_encoder,
{
}

/// Law: a symmetric drive stays straight. When both wheels carry the same
/// power and the same speed, one tick moves both wheel velocities
/// identically — toward the power's share of top speed — and changes the
/// heading by exactly zero, whatever the frictions, mass or time step.
pub proof fn lemma_straight_drive(o: Micromouse, mfr: int, dt: int)
    requires
        mouse_wf(o),
        0 <= dt <= DT_LIMIT,
        0 <= mfr <= FRICTION_LIMIT,
        o.left_power == o.right_power,
        o.left_velocity == o.right_velocity,
    ensures
        mouse_step_spec(o, mfr, dt).left_velocity == mouse_step_spec(o, mfr, dt).right_velocity,
        mouse_step_spec(o, mfr, dt).orientation == o.orientation,
{
    let vl = new_vel_spec(
        o.left_velocity as int,
        o.left_power as int,
        o.tire_friction as int,
        mfr,
        o.max_speed as int,
        o.mass as int,
        dt,
    );
    let vr = new_vel_spec(
        o.right_velocity as int,
        o.right_power as int,
        o.tire_friction as int,
        mfr,
        o.max_speed as int,
        o.mass as int,
        dt,
    );
    assert(vl == vr);
    assert(fx_div(vl - vr, o.wheel_base as int) == 0) by {
        vstd::arithmetic::div_mod::lemma_div_of0(o.wheel_base as int);
    }
    assert(fx_mul(0, dt) == 0) by {
        vstd::arithmetic::div_mod::lemma_div_of0(1000);
    }
    vstd::arithmetic::div_mod::lemma_small_mod(o.orientation as nat, TAU_FX as nat);
}

impl Micromouse {
    /// Build a vehicle from its configuration, start position and start
    /// heading. Sensor angles are converted to radians; all motion state
    /// starts at zero.
    pub fn new(config: MouseConfig, position: Vec2Fx, orientation: i64) -> (r: Micromouse)
        requires
            config_wf(config),
            -POS_LIMIT <= position.x <= POS_LIMIT,
            -POS_LIMIT <= position.y <= POS_LIMIT,
            0 <= orientation < TAU_FX,
        ensures
            mouse_wf(r),
            r.position == position,
            r.orientation == orientation,
            r.width == config.width,
            r.length == config.length,
            r.tire_friction == config.tire_friction,
            r.wheel_base == config.wheel_base,
            r.wheel_radius == config.wheel_radius,
            r.max_speed == config.max_speed,
            r.mass == config.mass,
            r.encoder_resolution == config.encoder_resolution,
            r.left_power == 0 && r.right_power == 0,
            r.left_velocity == 0 && r.right_velocity == 0,
            r.left_encoder == 0 && r.right_encoder == 0,
            r.sensors@.len() == config.sensors@.len(),
            forall|i: int|
                0 <= i < config.sensors@.len() ==> {
                    &&& (#[trigger] r.sensors@[i]).name == config.sensors@[i].name
                    &&& r.sensors@[i].position_offset == config.sensors@[i].position_offset
                    &&& r.sensors@[i].angle == deg_to_rad(config.sensors@[i].angle as int)
                    &&& r.sensors@[i].value == config.sensors@[i].value
                    &&& r.sensors@[i].closest_point == config.sensors@[i].closest_point
                },
    {
        let MouseConfig {
            wheel_base,
            wheel_radius,
            tire_friction,
            mass,
            max_speed,
            width,
            length,
            encoder_resolution,
            sensors: mut raw_sensors,
        } = config;
        let ghost conf_sensors = raw_sensors@;
        let mut sensors: Vec<Sensor> = Vec::new();
        while raw_sensors.len() > 0
            invariant
                sensors@.len() + raw_sensors@.len() == conf_sensors.len(),
                raw_sensors@ == conf_sensors.skip(sensors@.len() as int),
                forall|i: int| 0 <= i < conf_sensors.len() ==> sensor_conf_wf(#[trigger] conf_sensors[i]),
                forall|i: int|
                    0 <= i < sensors@.len() ==> {
                        &&& sensor_wf(#[trigger] sensors@[i])
                        &&& sensors@[i].name == conf_sensors[i].name
                        &&& sensors@[i].position_offset == conf_sensors[i].position_offset
                        &&& sensors@[i].angle == deg_to_rad(conf_sensors[i].angle as int)
                        &&& sensors@[i].value == conf_sensors[i].value
                        &&& sensors@[i].closest_point == conf_sensors[i].closest_point
                    },
            decreases raw_sensors@.len(),
        {
            let s = raw_sensors.remove(0);
            proof {
                assert(s == conf_sensors[sensors@.len() as int]);
                assert(raw_sensors@ =~= conf_sensors.skip(sensors@.len() as int + 1));
                assert(-(SENSOR_DEG_LIMIT as int * PI_FX) <= s.angle as int * PI_FX
                    <= SENSOR_DEG_LIMIT as int * PI_FX) by (nonlinear_arith)
                    requires
                        -SENSOR_DEG_LIMIT <= s.angle <= SENSOR_DEG_LIMIT,
                ;
                crate::geometry::lemma_tdiv_bound(s.angle as int * PI_FX, 180_000, 6284);
                assert(SENSOR_DEG_LIMIT as int * PI_FX == 6284 * 180_000);
            }
            let rad: i64 = crate::fixed::div_trunc(s.angle * PI_FX, 180_000);
            let ns = Sensor {
                name: s.name,
                position_offset: s.position_offset,
                angle: rad,
                value: s.value,
                closest_point: s.closest_point,
            };
            sensors.push(ns);
        }
        Micromouse {
            position,
            wheel_base,
            width,
            mass,
            length,
            max_speed,
            wheel_radius,
            left_encoder: 0,
            right_encoder: 0,
            encoder_resolution,
            sensors,
            orientation,
            tire_friction,
            left_velocity: 0,
            right_velocity: 0,
            left_power: 0,
            right_power: 0,
        }
    }

    /// Every write of the left power stores its clamp into `[-1, 1]`.
    pub fn set_left_power(&mut self, power: i64)
        ensures
            final(self).left_power == clamp_spec(
                power as int,
                -POWER_LIMIT as int,
                POWER_LIMIT as int,
            ),
            *final(self) == (Micromouse { left_power: final(self).left_power, ..*old(self) }),
    {
        self.left_power = crate::fixed::clamp_i64(power, -POWER_LIMIT, POWER_LIMIT);
    }

    /// Every write of the right power stores its clamp into `[-1, 1]`.
    pub fn set_right_power(&mut self, power: i64)
        ensures
            final(self).right_power == clamp_spec(
                power as int,
                -POWER_LIMIT as int,
                POWER_LIMIT as int,
            ),
            *final(self) == (Micromouse { right_power: final(self).right_power, ..*old(self) }),
    {
        self.right_power = crate::fixed::clamp_i64(power, -POWER_LIMIT, POWER_LIMIT);
    }

    /// Copy the script's power outputs back into the vehicle, clamped.
    /// This is the only path by which a script changes the vehicle.
    pub fn update_from_data(&mut self, data: &MouseData)
        ensures
            final(self).left_power == clamp_spec(
                data.left_power as int,
                -POWER_LIMIT as int,
                POWER_LIMIT as int,
            ),
            final(self).right_power == clamp_spec(
                data.right_power as int,
                -POWER_LIMIT as int,
                POWER_LIMIT as int,
            ),
            *final(self) == (Micromouse {
                left_power: final(self).left_power,
                right_power: final(self).right_power,
                ..*old(self)
            }),
    {
        self.set_left_power(data.left_power);
        self.set_right_power(data.right_power);
    }

    /// Wheel acceleration from power and friction; see `accel_spec`.
    pub fn calculate_acceleration(&self, power: i64, current_velocity: i64, maze_friction: i64) -> (r:
        i64)
        requires
            -POWER_LIMIT <= power <= POWER_LIMIT,
            -MAX_SPEED_LIMIT <= current_velocity <= MAX_SPEED_LIMIT,
            0 <= self.tire_friction <= FRICTION_LIMIT,
            0 <= maze_friction <= FRICTION_LIMIT,
            0 <= self.max_speed <= MAX_SPEED_LIMIT,
            0 < self.mass,
        ensures
            r == accel_spec(
                power as int,
                current_velocity as int,
                self.tire_friction + maze_friction,
                self.max_speed as int,
                self.mass as int,
            ),
            -3_000_000_000_000 <= r <= 3_000_000_000_000,
    {
        proof {
            assert(-(POWER_LIMIT as int * MAX_SPEED_LIMIT) <= power as int * self.max_speed
                <= POWER_LIMIT as int * MAX_SPEED_LIMIT) by (nonlinear_arith)
                requires
                    -POWER_LIMIT <= power <= POWER_LIMIT,
                    0 <= self.max_speed <= MAX_SPEED_LIMIT,
            ;
            crate::geometry::lemma_tdiv_bound(
                power as int * self.max_speed,
                1000,
                POWER_LIMIT as int * MAX_SPEED_LIMIT / 1000,
            );
        }
        let motor: i64 = crate::fixed::div_trunc(power * self.max_speed, 1000);
        let av: i64 = if current_velocity >= 0 {
            current_velocity
        } else {
            -current_velocity
        };
        let fric_sum: i64 = self.tire_friction + maze_friction;
        proof {
            assert(0 <= fric_sum as int * av <= 2 * FRICTION_LIMIT as int
                * MAX_SPEED_LIMIT) by (nonlinear_arith)
                requires
                    0 <= fric_sum <= 2 * FRICTION_LIMIT,
                    0 <= av <= MAX_SPEED_LIMIT,
            ;
            crate::geometry::lemma_tdiv_bound(
                fric_sum as int * av,
                1000,
                2 * FRICTION_LIMIT as int * MAX_SPEED_LIMIT / 1000,
            );
        }
        let fric_force: i64 = crate::fixed::div_trunc(fric_sum * av, 1000);
        let net: i64 = if motor >= 0 {
            motor - fric_force
        } else {
            motor + fric_force
        };
        proof {
            crate::fixed::lemma_tdiv_abs(net as int * 1000, self.mass as int);
            assert(tdiv(net as int * 1000, self.mass as int) == fx_div(net as int, self.mass as int));
        }
        crate::fixed::div_trunc(net * 1000, self.mass)
    }

    /// Accumulate encoder ticks from this step's wheel travel. The
    /// counters never decrease.
    pub fn update_wheel_encoders(&mut self, dt: i64)
        requires
            mouse_wf(*old(self)),
            0 <= dt <= DT_LIMIT,
        ensures
            final(self).left_encoder == enc_add_spec(
                old(self).left_encoder as int,
                enc_ticks_spec(
                    old(self).left_velocity as int,
                    dt as int,
                    old(self).wheel_radius as int,
                    old(self).encoder_resolution as int,
                ),
            ),
            final(self).right_encoder == enc_add_spec(
                old(self).right_encoder as int,
                enc_ticks_spec(
                    old(self).right_velocity as int,
                    dt as int,
                    old(self).wheel_radius as int,
                    old(self).encoder_resolution as int,
                ),
            ),
            final(self).left_encoder >= old(self).left_encoder,
            final(self).right_encoder >= old(self).right_encoder,
            *final(self) == (Micromouse {
                left_encoder: final(self).left_encoder,
                right_encoder: final(self).right_encoder,
                ..*old(self)
            }),
            mouse_wf(*final(self)),
    {
        let lt = self.wheel_ticks(self.left_velocity, dt);
        let rt = self.wheel_ticks(self.right_velocity, dt);
        self.left_encoder = if lt > u64::MAX - self.left_encoder {
            u64::MAX
        } else {
            self.left_encoder + lt
        };
        self.right_encoder = if rt > u64::MAX - self.right_encoder {
            u64::MAX
        } else {
            self.right_encoder + rt
        };
    }

    fn wheel_ticks(&self, v: i64, dt: i64) -> (r: u64)
        requires
            -MAX_SPEED_LIMIT <= v <= MAX_SPEED_LIMIT,
            0 <= dt <= DT_LIMIT,
            0 < self.wheel_radius <= DIM_LIMIT,
            self.encoder_resolution <= ENC_RES_LIMIT,
        ensures
            r == (if enc_ticks_spec(
                v as int,
                dt as int,
                self.wheel_radius as int,
                self.encoder_resolution as int,
            ) > 0 {
                enc_ticks_spec(
                    v as int,
                    dt as int,
                    self.wheel_radius as int,
                    self.encoder_resolution as int,
                )
            } else {
                0
            }),
    {
        proof {
            assert(-(MAX_SPEED_LIMIT as int * DT_LIMIT) <= v as int * dt <= MAX_SPEED_LIMIT as int
                * DT_LIMIT) by (nonlinear_arith)
                requires
                    -MAX_SPEED_LIMIT <= v <= MAX_SPEED_LIMIT,
                    0 <= dt <= DT_LIMIT,
            ;
            crate::geometry::lemma_tdiv_bound(
                v as int * dt,
                1000,
                MAX_SPEED_LIMIT as int * DT_LIMIT / 1000,
            );
        }
        let dist: i64 = crate::fixed::div_trunc(v * dt, 1000);
        let res_i: i64 = self.encoder_resolution as i64;
        let a: i64 = dist * 1000;
        proof {
            assert(-(600_000_000_000i64 as int * 1_000_000) <= a as int * res_i
                <= 600_000_000_000i64 as int * 1_000_000) by (nonlinear_arith)
                requires
                    -600_000_000_000 <= a <= 600_000_000_000,
                    0 <= res_i <= 1_000_000,
            ;
            assert(0 < TAU_FX as int * self.wheel_radius <= TAU_FX as int
                * DIM_LIMIT) by (nonlinear_arith)
                requires
                    0 < self.wheel_radius <= DIM_LIMIT,
            ;
        }
        let num: i64 = a * res_i;
        let den: i64 = TAU_FX * self.wheel_radius;
        proof {
            crate::fixed::lemma_tdiv_abs(num as int, den as int);
        }
        let t: i64 = crate::fixed::div_trunc(num, den);
        if t <= 0 {
            0
        } else {
            t as u64
        }
    }

    /// Slow both wheels by the combined friction after integration; see
    /// `decay_spec`.
    pub fn apply_friction(&mut self, dt: i64, maze_friction: i64)
        requires
            mouse_wf(*old(self)),
            0 <= dt <= DT_LIMIT,
            0 <= maze_friction <= FRICTION_LIMIT,
        ensures
            final(self).left_velocity == decay_spec(
                old(self).left_velocity as int,
                old(self).tire_friction + maze_friction,
                dt as int,
                old(self).max_speed as int,
            ),
            final(self).right_velocity == decay_spec(
                old(self).right_velocity as int,
                old(self).tire_friction + maze_friction,
                dt as int,
                old(self).max_speed as int,
            ),
            *final(self) == (Micromouse {
                left_velocity: final(self).left_velocity,
                right_velocity: final(self).right_velocity,
                ..*old(self)
            }),
            mouse_wf(*final(self)),
    {
        let fric: i64 = self.tire_friction + maze_friction;
        let nl = decayed_vel(self.left_velocity, fric, dt, self.max_speed);
        let nr = decayed_vel(self.right_velocity, fric, dt, self.max_speed);
        self.left_velocity = nl;
        self.right_velocity = nr;
    }

    /// Advance the vehicle one tick: integrate wheel velocities from
    /// power and friction, cap them, turn by the wheel-speed difference
    /// over the wheelbase, move along the new heading, accumulate
    /// encoder ticks, then apply the friction decay.
    ///
    /// The turning convention is fixed as `(left - right) / wheelbase`
    /// throughout the engine: a faster left wheel increases the heading.
    pub fn update(&mut self, dt: i64, maze_friction: i64)
        requires
            mouse_wf(*old(self)),
            0 <= dt <= DT_LIMIT,
            0 <= maze_friction <= FRICTION_LIMIT,
        ensures
            ({
                let o = *old(self);
                let vl = new_vel_spec(
                    o.left_velocity as int,
                    o.left_power as int,
                    o.tire_friction as int,
                    maze_friction as int,
                    o.max_speed as int,
                    o.mass as int,
                    dt as int,
                );
                let vr = new_vel_spec(
                    o.right_velocity as int,
                    o.right_power as int,
                    o.tire_friction as int,
                    maze_friction as int,
                    o.max_speed as int,
                    o.mass as int,
                    dt as int,
                );
                let avg = tdiv(vl + vr, 2);
                let h = (o.orientation + fx_mul(fx_div(vl - vr, o.wheel_base as int), dt as int)) % (
                TAU_FX as int);
                &&& final(self).orientation == h
                &&& final(self).position.x == clamp_spec(
                    o.position.x + fx_mul(fx_mul(avg, cos_spec(h)), dt as int),
                    -POS_LIMIT as int,
                    POS_LIMIT as int,
                )
                &&& final(self).position.y == clamp_spec(
                    o.position.y + fx_mul(fx_mul(avg, sin_spec(h)), dt as int),
                    -POS_LIMIT as int,
                    POS_LIMIT as int,
                )
                &&& final(self).left_velocity == decay_spec(
                    vl,
                    o.tire_friction + maze_friction,
                    dt as int,
                    o.max_speed as int,
                )
                &&& final(self).right_velocity == decay_spec(
                    vr,
                    o.tire_friction + maze_friction,
                    dt as int,
                    o.max_speed as int,
                )
                &&& final(self).left_encoder == enc_add_spec(
                    o.left_encoder as int,
                    enc_ticks_spec(
                        vl,
                        dt as int,
                        o.wheel_radius as int,
                        o.encoder_resolution as int,
                    ),
                )
                &&& final(self).right_encoder == enc_add_spec(
                    o.right_encoder as int,
                    enc_ticks_spec(
                        vr,
                        dt as int,
                        o.wheel_radius as int,
                        o.encoder_resolution as int,
                    ),
                )
            }),
            final(self).left_encoder >= old(self).left_encoder,
            final(self).right_encoder >= old(self).right_encoder,
            *final(self) == mouse_step_spec(*old(self), maze_friction as int, dt as int),
            mouse_wf(*final(self)),
    {
        let la = self.calculate_acceleration(self.left_power, self.left_velocity, maze_friction);
        let ra = self.calculate_acceleration(self.right_power, self.right_velocity, maze_friction);
        proof {
            assert(-(3_000_000_000_000i64 as int * DT_LIMIT) <= la as int * dt
                <= 3_000_000_000_000i64 as int * DT_LIMIT) by (nonlinear_arith)
                requires
                    -3_000_000_000_000 <= la <= 3_000_000_000_000,
                    0 <= dt <= DT_LIMIT,
            ;
            assert(-(3_000_000_000_000i64 as int * DT_LIMIT) <= ra as int * dt
                <= 3_000_000_000_000i64 as int * DT_LIMIT) by (nonlinear_arith)
                requires
                    -3_000_000_000_000 <= ra <= 3_000_000_000_000,
                    0 <= dt <= DT_LIMIT,
            ;
            crate::geometry::lemma_tdiv_bound(
                la as int * dt,
                1000,
                3_000_000_000_000i64 as int * DT_LIMIT / 1000,
            );
            crate::geometry::lemma_tdiv_bound(
                ra as int * dt,
                1000,
                3_000_000_000_000i64 as int * DT_LIMIT / 1000,
            );
        }
        let dl: i64 = crate::fixed::div_trunc(la * dt, 1000);
        let dr: i64 = crate::fixed::div_trunc(ra * dt, 1000);
        self.left_velocity = crate::fixed::clamp_i64(
            self.left_velocity + dl,
            -self.max_speed,
            self.max_speed,
        );
        self.right_velocity = crate::fixed::clamp_i64(
            self.right_velocity + dr,
            -self.max_speed,
            self.max_speed,
        );
        let average_velocity: i64 = crate::fixed::div_trunc(
            self.left_velocity + self.right_velocity,
            2,
        );
        proof {
            crate::geometry::lemma_tdiv_bound(
                (self.left_velocity + self.right_velocity) as int,
                2,
                MAX_SPEED_LIMIT as int,
            );
            crate::geometry::lemma_tdiv_bound(
                (self.left_velocity - self.right_velocity) as int * 1000,
                self.wheel_base as int,
                2 * MAX_SPEED_LIMIT as int * 1000,
            );
        }
        let turning_rate: i64 = crate::fixed::div_trunc(
            (self.left_velocity - self.right_velocity) * 1000,
            self.wheel_base,
        );
        proof {
            assert(-(2_000_000_000i64 as int * DT_LIMIT) <= turning_rate as int * dt
                <= 2_000_000_000i64 as int * DT_LIMIT) by (nonlinear_arith)
                requires
                    -2_000_000_000 <= turning_rate <= 2_000_000_000,
                    0 <= dt <= DT_LIMIT,
            ;
            crate::geometry::lemma_tdiv_bound(
                turning_rate as int * dt,
                1000,
                2_000_000_000i64 as int * DT_LIMIT / 1000,
            );
        }
        let dh: i64 = crate::fixed::div_trunc(turning_rate * dt, 1000);
        let h: i64 = crate::trig::normalize_angle(self.orientation + dh);
        self.orientation = h;
        let c: i64 = crate::trig::cos_fx(h);
        let s: i64 = crate::trig::sin_fx(h);
        proof {
            crate::geometry::lemma_fx_mul_contract(
                average_velocity as int,
                c as int,
                MAX_SPEED_LIMIT as int,
            );
            crate::geometry::lemma_fx_mul_contract(
                average_velocity as int,
                s as int,
                MAX_SPEED_LIMIT as int,
            );
            assert(-(MAX_SPEED_LIMIT as int * 1000) <= average_velocity as int * c
                <= MAX_SPEED_LIMIT as int * 1000) by (nonlinear_arith)
                requires
                    -MAX_SPEED_LIMIT <= average_velocity <= MAX_SPEED_LIMIT,
                    -1000 <= c <= 1000,
            ;
            assert(-(MAX_SPEED_LIMIT as int * 1000) <= average_velocity as int * s
                <= MAX_SPEED_LIMIT as int * 1000) by (nonlinear_arith)
                requires
                    -MAX_SPEED_LIMIT <= average_velocity <= MAX_SPEED_LIMIT,
                    -1000 <= s <= 1000,
            ;
        }
        let mvx: i64 = crate::fixed::div_trunc(average_velocity * c, 1000);
        let mvy: i64 = crate::fixed::div_trunc(average_velocity * s, 1000);
        proof {
            assert(-(MAX_SPEED_LIMIT as int * DT_LIMIT) <= mvx as int * dt <= MAX_SPEED_LIMIT as int
                * DT_LIMIT) by (nonlinear_arith)
                requires
                    -MAX_SPEED_LIMIT <= mvx <= MAX_SPEED_LIMIT,
                    0 <= dt <= DT_LIMIT,
            ;
            assert(-(MAX_SPEED_LIMIT as int * DT_LIMIT) <= mvy as int * dt <= MAX_SPEED_LIMIT as int
                * DT_LIMIT) by (nonlinear_arith)
                requires
                    -MAX_SPEED_LIMIT <= mvy <= MAX_SPEED_LIMIT,
                    0 <= dt <= DT_LIMIT,
            ;
            crate::geometry::lemma_tdiv_bound(
                mvx as int * dt,
                1000,
                MAX_SPEED_LIMIT as int * DT_LIMIT / 1000,
            );
            crate::geometry::lemma_tdiv_bound(
                mvy as int * dt,
                1000,
                MAX_SPEED_LIMIT as int * DT_LIMIT / 1000,
            );
        }
        let mx: i64 = crate::fixed::div_trunc(mvx * dt, 1000);
        let my: i64 = crate::fixed::div_trunc(mvy * dt, 1000);
        self.position = Vec2Fx {
            x: crate::fixed::clamp_i64(self.position.x + mx, -POS_LIMIT, POS_LIMIT),
            y: crate::fixed::clamp_i64(self.position.y + my, -POS_LIMIT, POS_LIMIT),
        };
        self.update_wheel_encoders(dt);
        self.apply_friction(dt, maze_friction);
        proof {
            assert(*self == mouse_step_spec(*old(self), maze_friction as int, dt as int));
        }
    }

    /// Build the per-tick snapshot handed to the control script: a copy
    /// of the physical parameters, powers, encoder counts and sensor
    /// readings, with sensor angles converted back to degrees. Nothing
    /// in it aliases the vehicle.
    pub fn get_data(&self, delta_time: i64, crashed: bool) -> (r: MouseData)
        requires
            mouse_wf(*self),
        ensures
            r.wheel_base == self.wheel_base,
            r.tire_friction == self.tire_friction,
            r.mass == self.mass,
            r.crashed == crashed,
            r.delta_time == delta_time,
            r.width == self.width,
            r.length == self.length,
            r.left_encoder == self.left_encoder,
            r.right_encoder == self.right_encoder,
            r.left_power == self.left_power,
            r.right_power == self.right_power,
            r.sensors.0@.len() == self.sensors@.len(),
            forall|i: int|
                0 <= i < self.sensors@.len() ==> {
                    &&& (#[trigger] r.sensors.0@[i]).0 == self.sensors@[i].name
                    &&& r.sensors.0@[i].1.position_offset == self.sensors@[i].position_offset
                    &&& r.sensors.0@[i].1.angle == rad_to_deg(self.sensors@[i].angle as int)
                    &&& r.sensors.0@[i].1.value == self.sensors@[i].value
                },
    {
        let mut items: Vec<(String, SensorInfo)> = Vec::new();
        let mut i: usize = 0;
        while i < self.sensors.len()
            invariant
                i <= self.sensors@.len(),
                mouse_wf(*self),
                items@.len() == i as int,
                forall|k: int|
                    0 <= k < i ==> {
                        &&& (#[trigger] items@[k]).0 == self.sensors@[k].name
                        &&& items@[k].1.position_offset == self.sensors@[k].position_offset
                        &&& items@[k].1.angle == rad_to_deg(self.sensors@[k].angle as int)
                        &&& items@[k].1.value == self.sensors@[k].value
                    },
            decreases self.sensors@.len() - i,
        {
            let s = self.sensors.get(i).unwrap();
            proof {
                assert(sensor_wf(self.sensors@[i as int]));
            }
            let deg: i64 = crate::fixed::div_trunc(s.angle * 180_000, PI_FX);
            let info = SensorInfo {
                position_offset: s.position_offset,
                angle: deg,
                value: s.value,
            };
            items.push((s.name.clone(), info));
            i += 1;
        }
        MouseData {
            wheel_base: self.wheel_base,
            tire_friction: self.tire_friction,
            mass: self.mass,
            crashed,
            delta_time,
            width: self.width,
            length: self.length,
            sensors: Sensors(items),
            left_encoder: self.left_encoder,
            right_encoder: self.right_encoder,
            left_power: self.left_power,
            right_power: self.right_power,
        }
    }
}

fn decayed_vel(v: i64, fric: i64, dt: i64, ms: i64) -> (r: i64)
    requires
        -MAX_SPEED_LIMIT <= v <= MAX_SPEED_LIMIT,
        0 <= fric <= 2 * FRICTION_LIMIT,
        0 <= dt <= DT_LIMIT,
        0 <= ms <= MAX_SPEED_LIMIT,
    ensures
        r == decay_spec(v as int, fric as int, dt as int, ms as int),
{
    proof {
        assert(-(MAX_SPEED_LIMIT as int * 2 * FRICTION_LIMIT) <= v as int * fric
            <= MAX_SPEED_LIMIT as int * 2 * FRICTION_LIMIT) by (nonlinear_arith)
            requires
                -MAX_SPEED_LIMIT <= v <= MAX_SPEED_LIMIT,
                0 <= fric <= 2 * FRICTION_LIMIT,
        ;
        crate::geometry::lemma_tdiv_bound(
            v as int * fric,
            1000,
            MAX_SPEED_LIMIT as int * 2 * FRICTION_LIMIT / 1000,
        );
    }
    let k1: i64 = crate::fixed::div_trunc(v * fric, 1000);
    proof {
        assert(-(4_000_000_000i64 as int * DT_LIMIT) <= k1 as int * dt <= 4_000_000_000i64 as int
            * DT_LIMIT) by (nonlinear_arith)
            requires
                -4_000_000_000 <= k1 <= 4_000_000_000,
                0 <= dt <= DT_LIMIT,
        ;
        crate::geometry::lemma_tdiv_bound(
            k1 as int * dt,
            1000,
            4_000_000_000i64 as int * DT_LIMIT / 1000,
        );
    }
    let k2: i64 = crate::fixed::div_trunc(k1 * dt, 1000);
    crate::fixed::clamp_i64(v - k2, -ms, ms)
}

} // verus!
