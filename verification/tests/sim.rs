use micromouse::geometry::Vec2Fx;
use micromouse::maze::Maze;
use micromouse::mouse::{MouseConfig, Sensor};
use micromouse::simulation::Simulation;

fn config(sensors: Vec<Sensor>) -> MouseConfig {
    MouseConfig {
        wheel_base: 80_000,
        wheel_radius: 1_000,
        tire_friction: 0,
        mass: 1_000,
        max_speed: 1_000,
        width: 20_000,
        length: 30_000,
        encoder_resolution: 6_284,
        sensors,
    }
}

#[test]
fn overlapping_footprint_collides_and_stays_collided() {
    // The start pose puts the vehicle's outline across the extruded wall
    // band, so the very first tick latches the collision flag.
    let maze = Maze::from_string("SP: 2,1.5\n.R2: 0-5", 50_000).unwrap();
    let mut sim = Simulation::new(maze, config(Vec::new()));
    assert!(!sim.collided);
    sim.update(0);
    assert!(sim.collided);
    assert!(!sim.control_allowed());
    // Drive away in reverse; the flag must never clear.
    sim.mouse.set_left_power(-1_000);
    sim.mouse.set_right_power(-1_000);
    for _ in 0..200 {
        sim.update(1_000);
        assert!(sim.collided);
    }
    assert!(sim.mouse.position.x < 90_000);
    assert!(sim.collided);
}

#[test]
fn clear_footprint_does_not_collide() {
    let maze = Maze::from_string("SP: 2,0.5\n.R2: 0-5", 50_000).unwrap();
    let mut sim = Simulation::new(maze, config(Vec::new()));
    sim.update(0);
    assert!(!sim.collided);
    assert!(sim.control_allowed());
}

#[test]
fn finish_boundary_is_inclusive() {
    // The start pose lands exactly on the finish rectangle's maximum
    // corner (3,3) in cells: finished latches.
    let maze = Maze::from_string("FI: 1,1;3,3\nSP: 2.5,2.5", 50_000).unwrap();
    let mut sim = Simulation::new(maze, config(Vec::new()));
    assert_eq!(sim.mouse.position, Vec2Fx { x: 150_000, y: 150_000 });
    assert_eq!(sim.maze.finish.p3, Vec2Fx { x: 150_000, y: 150_000 });
    sim.update(0);
    assert!(sim.finished);
    assert!(!sim.collided);
}

#[test]
fn beyond_finish_corner_is_not_finished() {
    // One world unit past the maximum corner on both axes.
    let maze = Maze::from_string("FI: 1,1;3,3\nSP: 2.52,2.52", 50_000).unwrap();
    let mut sim = Simulation::new(maze, config(Vec::new()));
    assert_eq!(sim.mouse.position, Vec2Fx { x: 151_000, y: 151_000 });
    sim.update(0);
    assert!(!sim.finished);
}

#[test]
fn finish_flag_is_sticky() {
    let maze = Maze::from_string("FI: 1,1;3,3\nSP: 2.5,2.5", 50_000).unwrap();
    let mut sim = Simulation::new(maze, config(Vec::new()));
    sim.update(0);
    assert!(sim.finished);
    sim.mouse.set_left_power(1_000);
    sim.mouse.set_right_power(1_000);
    for _ in 0..50 {
        sim.update(1_000);
        assert!(sim.finished);
    }
}

#[test]
fn sensors_read_walls_and_retain_old_readings() {
    let sensors = vec![
        Sensor {
            name: "up".to_string(),
            position_offset: Vec2Fx { x: 0, y: 0 },
            angle: 90_000,
            value: 0,
            closest_point: Vec2Fx { x: 0, y: 0 },
        },
        Sensor {
            name: "down".to_string(),
            position_offset: Vec2Fx { x: 0, y: 0 },
            angle: -90_000,
            value: 77,
            closest_point: Vec2Fx { x: 3, y: 4 },
        },
    ];
    let maze = Maze::from_string("SP: 2,1\n.R2: 0-5", 50_000).unwrap();
    let mut sim = Simulation::new(maze, config(sensors));
    sim.update(0);
    // The upward sensor sees the wall band: its reading is the squared
    // distance to the hit, which lies on the band's far edge.
    let up = &sim.mouse.sensors[0];
    assert_eq!(up.closest_point, Vec2Fx { x: 125_000, y: 101_000 });
    assert_eq!(up.value, 26_000 * 26_000);
    // The downward sensor sees nothing: its previous reading is kept,
    // deliberately.
    let down = &sim.mouse.sensors[1];
    assert_eq!(down.value, 77);
    assert_eq!(down.closest_point, Vec2Fx { x: 3, y: 4 });
}

#[test]
fn time_scale_is_clamped() {
    let maze = Maze::from_string("SP: 1,1", 50_000).unwrap();
    let mut sim = Simulation::new(maze, config(Vec::new()));
    assert_eq!(sim.time_scale, 1_000);
    sim.set_time_scale(50);
    assert_eq!(sim.time_scale, 100);
    sim.set_time_scale(99_999);
    assert_eq!(sim.time_scale, 10_000);
    sim.set_time_scale(2_500);
    assert_eq!(sim.time_scale, 2_500);
}

#[test]
fn time_scale_stretches_motion() {
    let maze = Maze::from_string("SP: 1,1\nFR: 0", 50_000).unwrap();
    let mut sim = Simulation::new(maze, config(Vec::new()));
    sim.mouse.set_left_power(500);
    sim.mouse.set_right_power(500);
    sim.set_time_scale(2_000);
    let x0 = sim.mouse.position.x;
    sim.update(500);
    // A half-second frame at double rate integrates a full second.
    assert_eq!(sim.mouse.left_velocity, 500);
    assert!(sim.mouse.position.x > x0);
}
