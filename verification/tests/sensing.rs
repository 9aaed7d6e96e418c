use micromouse::geometry::Vec2Fx;
use micromouse::maze::Maze;
use micromouse::ray::Ray;

#[test]
fn sensor_ray_hits_wall_band() {
    // One horizontal wall from cell (0,2) to (5,2), cell size 50, thickness
    // one unit: a ray from (2.5, 0) cells pointing toward +y must report a
    // hit whose y lies within the extruded band, and nothing beyond it.
    let m = Maze::from_string(".R2: 0-5", 50_000).unwrap();
    let ray = Ray {
        origin: Vec2Fx { x: 125_000, y: 0 },
        direction: Vec2Fx { x: 0, y: 1_000 },
    };
    let (p, d) = ray.find_nearest_intersection(&m.walls).unwrap();
    assert_eq!(p.x, 125_000);
    assert!(100_000 <= p.y && p.y <= 101_000);
    assert_eq!(d, p.y * p.y);
    assert!(d <= 101_000 * 101_000);
}

#[test]
fn ray_pointing_away_misses() {
    let m = Maze::from_string(".R2: 0-5", 50_000).unwrap();
    let ray = Ray {
        origin: Vec2Fx { x: 125_000, y: 0 },
        direction: Vec2Fx { x: 0, y: -1_000 },
    };
    assert!(ray.find_nearest_intersection(&m.walls).is_none());
}

#[test]
fn ray_beside_the_wall_misses() {
    let m = Maze::from_string(".R2: 0-5", 50_000).unwrap();
    let ray = Ray {
        origin: Vec2Fx { x: 300_000, y: 0 },
        direction: Vec2Fx { x: 0, y: 1_000 },
    };
    assert!(ray.find_nearest_intersection(&m.walls).is_none());
}

#[test]
fn nearest_wall_wins() {
    let m = Maze::from_string(".R2: 0-5\n.R3: 0-5", 50_000).unwrap();
    let ray = Ray {
        origin: Vec2Fx { x: 125_000, y: 0 },
        direction: Vec2Fx { x: 0, y: 1_000 },
    };
    let (p, _) = ray.find_nearest_intersection(&m.walls).unwrap();
    assert!(p.y <= 101_000);
}
