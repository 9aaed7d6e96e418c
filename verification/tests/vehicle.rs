use micromouse::geometry::Vec2Fx;
use micromouse::mouse::{Micromouse, MouseConfig, Sensor};
use micromouse::trig::RIGHT;

fn config() -> MouseConfig {
    MouseConfig {
        wheel_base: 80_000,
        wheel_radius: 1_000,
        tire_friction: 0,
        mass: 1_000,
        max_speed: 1_000,
        width: 20_000,
        length: 30_000,
        encoder_resolution: 6_284,
        sensors: Vec::new(),
    }
}

fn mouse_at_origin() -> Micromouse {
    Micromouse::new(config(), Vec2Fx { x: 0, y: 0 }, RIGHT)
}

#[test]
fn power_writes_clamp_directly() {
    let mut m = mouse_at_origin();
    m.set_left_power(5_000);
    assert_eq!(m.left_power, 1_000);
    m.set_left_power(-5_000);
    assert_eq!(m.left_power, -1_000);
    m.set_right_power(250);
    assert_eq!(m.right_power, 250);
    m.set_right_power(-99_999);
    assert_eq!(m.right_power, -1_000);
}

#[test]
fn power_writes_clamp_through_snapshot_bridge() {
    let mut m = mouse_at_origin();
    let mut data = m.get_data(16, false);
    data.set_left_power(7_000);
    data.set_right_power(-7_000);
    assert_eq!(data.get_left_power(), 1_000);
    assert_eq!(data.get_right_power(), -1_000);
    m.update_from_data(&data);
    assert_eq!(m.left_power, 1_000);
    assert_eq!(m.right_power, -1_000);
}

#[test]
fn symmetric_drive_stays_straight() {
    // Equal powers, zero frictions, one-second step, from rest: both
    // wheels accelerate identically toward the power's share of top
    // speed, and the heading does not change at all.
    let mut m = mouse_at_origin();
    m.set_left_power(500);
    m.set_right_power(500);
    let h0 = m.orientation;
    m.update(1_000, 0);
    assert_eq!(m.left_velocity, m.right_velocity);
    assert_eq!(m.left_velocity, 500);
    assert_eq!(m.orientation, h0);
    // Facing right, the vehicle moved along +x only.
    assert_eq!(m.position.x, 500);
    assert_eq!(m.position.y, 0);
}

#[test]
fn straight_drive_encoder_count() {
    // With radius one unit and a resolution equal to the circumference
    // in thousandths, one thousandth of travel is one tick.
    let mut m = mouse_at_origin();
    m.set_left_power(500);
    m.set_right_power(500);
    m.update(1_000, 0);
    assert_eq!(m.left_encoder, 500);
    assert_eq!(m.right_encoder, 500);
}

#[test]
fn encoders_never_decrease_under_forward_motion() {
    let mut m = mouse_at_origin();
    m.set_left_power(1_000);
    m.set_right_power(1_000);
    let mut last = (m.left_encoder, m.right_encoder);
    for _ in 0..20 {
        m.update(250, 100);
        assert!(m.left_encoder >= last.0);
        assert!(m.right_encoder >= last.1);
        last = (m.left_encoder, m.right_encoder);
    }
    assert!(m.left_encoder > 0);
}

#[test]
fn reverse_motion_does_not_decrease_encoders() {
    let mut m = mouse_at_origin();
    m.set_left_power(-1_000);
    m.set_right_power(-1_000);
    m.update(1_000, 0);
    assert!(m.left_velocity < 0);
    assert_eq!(m.left_encoder, 0);
    assert_eq!(m.right_encoder, 0);
}

#[test]
fn velocity_is_capped_at_top_speed() {
    let mut m = mouse_at_origin();
    m.set_left_power(1_000);
    m.set_right_power(1_000);
    for _ in 0..10 {
        m.update(10_000, 0);
        assert!(m.left_velocity <= m.max_speed);
        assert!(m.right_velocity <= m.max_speed);
    }
    assert_eq!(m.left_velocity, m.max_speed);
}

#[test]
fn friction_decays_velocity() {
    let mut m = mouse_at_origin();
    m.set_left_power(1_000);
    m.set_right_power(1_000);
    m.update(1_000, 0);
    let v = m.left_velocity;
    m.set_left_power(0);
    m.set_right_power(0);
    // Tire friction zero, maze friction half: the decay shrinks speed.
    m.update(1_000, 500);
    assert!(m.left_velocity < v);
    assert!(m.left_velocity >= 0);
}

#[test]
fn asymmetric_power_turns() {
    let mut m = mouse_at_origin();
    m.set_left_power(1_000);
    m.set_right_power(0);
    let h0 = m.orientation;
    m.update(1_000, 0);
    // Left wheel faster than right: the turning rate is positive under
    // the (left - right) / wheelbase convention.
    assert!(m.orientation != h0);
}

#[test]
fn snapshot_mirrors_state_and_converts_angles() {
    let mut cfg = config();
    cfg.sensors.push(Sensor {
        name: "front".to_string(),
        position_offset: Vec2Fx { x: 10_000, y: 0 },
        angle: 90_000,
        value: 0,
        closest_point: Vec2Fx { x: 0, y: 0 },
    });
    let m = Micromouse::new(cfg, Vec2Fx { x: 5, y: 6 }, RIGHT);
    // Ninety thousand milli-degrees become a quarter turn in milli-radians.
    assert_eq!(m.sensors[0].angle, 1_571);
    let data = m.get_data(16, false);
    assert_eq!(data.wheel_base, 80_000);
    assert_eq!(data.mass, 1_000);
    assert_eq!(data.delta_time, 16);
    assert!(!data.crashed);
    assert_eq!(data.sensors.len(), 1);
    let info = data.sensors.get_sensors("front").unwrap();
    // And back to milli-degrees for the script; this one is exact.
    assert_eq!(info.angle, 90_000);
    assert_eq!(info.position_offset, Vec2Fx { x: 10_000, y: 0 });
    let by_index = data.sensors.get_index(0).unwrap();
    assert_eq!(by_index.angle, info.angle);
    assert!(data.sensors.get_sensors("side").is_none());
    assert!(data.sensors.get_index(1).is_none());
}
