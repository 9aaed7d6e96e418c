use micromouse::geometry::Vec2Fx;
use micromouse::maze::Maze as WorldMaze;
use micromouse::mazeparser::{Maze, MazeParseError, Orientation, ParseField, StartDirection};

#[test]
fn start_point_scaled_to_cell_center() {
    // Start cell (2,3) with cell size 50: center (2.5, 3.5) scaled by 50.
    let m = WorldMaze::from_string("SP: 2,3", 50_000).unwrap();
    assert_eq!(m.start.x, 125_000);
    assert_eq!(m.start.y, 175_000);
}

#[test]
fn start_point_cell_space_offset() {
    let m = Maze::from_str("SP: 2,3").unwrap();
    assert_eq!(m.start, Vec2Fx { x: 2_500, y: 3_500 });
}

#[test]
fn start_point_fractional() {
    let m = Maze::from_str("SP: 1.25,0.5").unwrap();
    assert_eq!(m.start, Vec2Fx { x: 1_750, y: 1_000 });
}

#[test]
fn start_point_second_coordinate_untrimmed() {
    // The y coordinate is parsed as written; a leading space fails it.
    let e = Maze::from_str("SP: 2, 3").unwrap_err();
    assert_eq!(e, MazeParseError { line: 1, field: ParseField::StartY });
}

#[test]
fn start_point_bad_x() {
    let e = Maze::from_str("SP: q,3").unwrap_err();
    assert_eq!(e, MazeParseError { line: 1, field: ParseField::StartX });
}

#[test]
fn start_point_without_comma_is_ignored() {
    let m = Maze::from_str("SP: 7").unwrap();
    assert_eq!(m.start, Vec2Fx { x: 0, y: 0 });
}

#[test]
fn directions_parse_case_insensitively() {
    assert!(matches!(
        Maze::from_str("SD: u").unwrap().start_direction,
        StartDirection::Up
    ));
    assert!(matches!(
        Maze::from_str("sd: L").unwrap().start_direction,
        StartDirection::Left
    ));
    assert!(matches!(
        Maze::from_str("SD: D").unwrap().start_direction,
        StartDirection::Down
    ));
    assert!(matches!(
        Maze::from_str("SD: r").unwrap().start_direction,
        StartDirection::Right
    ));
}

#[test]
fn invalid_direction_reports_line() {
    let e = Maze::from_str("# comment\nSD: Q").unwrap_err();
    assert_eq!(e, MazeParseError { line: 2, field: ParseField::Direction });
}

#[test]
fn last_directive_wins() {
    let m = Maze::from_str("SP: 1,1\nSP: 4,5\nFR: 0.25\nFR: 0.75").unwrap();
    assert_eq!(m.start, Vec2Fx { x: 4_500, y: 5_500 });
    assert_eq!(m.friction, 750);
}

#[test]
fn comments_and_plain_lines_are_skipped() {
    let m = Maze::from_str("# SP: 9,9\n   # indented comment\nno colon here\nSP: 1,1").unwrap();
    assert_eq!(m.start, Vec2Fx { x: 1_500, y: 1_500 });
}

#[test]
fn unknown_key_reports_line() {
    let e = Maze::from_str("SP: 1,1\nZZ: 3").unwrap_err();
    assert_eq!(e, MazeParseError { line: 2, field: ParseField::UnknownKey });
}

#[test]
fn row_walls_accumulate() {
    let m = Maze::from_str(".R2: 0-5,7-9\n.R3: 1-2").unwrap();
    assert_eq!(m.walls.len(), 3);
    assert_eq!(m.walls[0].start, Vec2Fx { x: 0, y: 2_000 });
    assert_eq!(m.walls[0].end, Vec2Fx { x: 5_000, y: 2_000 });
    assert!(matches!(m.walls[0].orientation, Orientation::Horizontal));
    assert_eq!(m.walls[1].start, Vec2Fx { x: 7_000, y: 2_000 });
    assert_eq!(m.walls[2].start, Vec2Fx { x: 1_000, y: 3_000 });
}

#[test]
fn column_walls_swap_axes() {
    let m = Maze::from_str(".C4: 1-3").unwrap();
    assert_eq!(m.walls.len(), 1);
    assert_eq!(m.walls[0].start, Vec2Fx { x: 4_000, y: 1_000 });
    assert_eq!(m.walls[0].end, Vec2Fx { x: 4_000, y: 3_000 });
    assert!(matches!(m.walls[0].orientation, Orientation::Vertical));
}

#[test]
fn range_token_without_dash_is_skipped() {
    let m = Maze::from_str(".R2: 0-5,7").unwrap();
    assert_eq!(m.walls.len(), 1);
}

#[test]
fn wall_error_fields() {
    assert_eq!(
        Maze::from_str(".Rx: 0-5").unwrap_err(),
        MazeParseError { line: 1, field: ParseField::RowNumber }
    );
    assert_eq!(
        Maze::from_str(".Cx: 0-5").unwrap_err(),
        MazeParseError { line: 1, field: ParseField::ColNumber }
    );
    assert_eq!(
        Maze::from_str(".R2: a-5").unwrap_err(),
        MazeParseError { line: 1, field: ParseField::RangeStart }
    );
    assert_eq!(
        Maze::from_str(".R2: 0-b").unwrap_err(),
        MazeParseError { line: 1, field: ParseField::RangeEnd }
    );
}

#[test]
fn finish_error_fields() {
    assert_eq!(
        Maze::from_str("FI: 1;2,3").unwrap_err(),
        MazeParseError { line: 1, field: ParseField::FinishStart }
    );
    assert_eq!(
        Maze::from_str("FI: a,1;2,3").unwrap_err(),
        MazeParseError { line: 1, field: ParseField::FinishStartX }
    );
    assert_eq!(
        Maze::from_str("FI: 1,b;2,3").unwrap_err(),
        MazeParseError { line: 1, field: ParseField::FinishStartY }
    );
    assert_eq!(
        Maze::from_str("FI: 1,1;2").unwrap_err(),
        MazeParseError { line: 1, field: ParseField::FinishEnd }
    );
    assert_eq!(
        Maze::from_str("FI: 1,1;x,2").unwrap_err(),
        MazeParseError { line: 1, field: ParseField::FinishEndX }
    );
    assert_eq!(
        Maze::from_str("FI: 1,1;2,y").unwrap_err(),
        MazeParseError { line: 1, field: ParseField::FinishEndY }
    );
}

#[test]
fn finish_without_semicolon_is_ignored() {
    let m = Maze::from_str("FI: 1,1").unwrap();
    assert_eq!(m.finish.start, Vec2Fx { x: 0, y: 0 });
    assert_eq!(m.finish.end, Vec2Fx { x: 0, y: 0 });
}

#[test]
fn friction_rejects_negative_and_garbage() {
    assert_eq!(
        Maze::from_str("FR: -0.5").unwrap_err(),
        MazeParseError { line: 1, field: ParseField::Friction }
    );
    assert_eq!(
        Maze::from_str("FR: abc").unwrap_err(),
        MazeParseError { line: 1, field: ParseField::Friction }
    );
}

#[test]
fn number_grammar_edges() {
    assert_eq!(Maze::from_str("FR: .5").unwrap().friction, 500);
    assert_eq!(Maze::from_str("FR: 5.").unwrap().friction, 5_000);
    assert_eq!(Maze::from_str("SP: +2,-1").unwrap().start, Vec2Fx { x: 2_500, y: -500 });
    // A fourth fraction digit is truncated, not rounded.
    assert_eq!(Maze::from_str("FR: 0.1239").unwrap().friction, 123);
    assert!(Maze::from_str("FR: .").is_err());
    assert!(Maze::from_str("FR: 1.2.3").is_err());
}

#[test]
fn crlf_lines_parse() {
    let m = Maze::from_str("SP: 1,1\r\nFR: 0.5\r\n").unwrap();
    assert_eq!(m.start, Vec2Fx { x: 1_500, y: 1_500 });
    assert_eq!(m.friction, 500);
}

#[test]
fn world_wall_extrusion() {
    // One horizontal wall from cell (0,2) to (5,2), cell size 50: the quad
    // spans one world unit of thickness above the scaled segment.
    let m = WorldMaze::from_string(".R2: 0-5", 50_000).unwrap();
    assert_eq!(m.walls.len(), 1);
    let w = &m.walls[0].0;
    assert_eq!(w.p1, Vec2Fx { x: 0, y: 100_000 });
    assert_eq!(w.p2, Vec2Fx { x: 250_000, y: 100_000 });
    assert_eq!(w.p3, Vec2Fx { x: 250_000, y: 101_000 });
    assert_eq!(w.p4, Vec2Fx { x: 0, y: 101_000 });
}

#[test]
fn world_finish_is_normalized() {
    // Corners given in reverse order come out with p1 the minimum corner.
    let m = WorldMaze::from_string("FI: 3,3;1,1", 50_000).unwrap();
    assert_eq!(m.finish.p1, Vec2Fx { x: 50_000, y: 50_000 });
    assert_eq!(m.finish.p3, Vec2Fx { x: 150_000, y: 150_000 });
}

#[test]
fn parse_failure_returns_no_partial_maze() {
    let r = WorldMaze::from_string("SP: 1,1\n.R2: 0-5\nXX: 1", 50_000);
    assert_eq!(
        r.unwrap_err(),
        MazeParseError { line: 3, field: ParseField::UnknownKey }
    );
}
