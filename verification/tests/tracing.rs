use laser_pads::board::{Color, Grid, Point};
use laser_pads::tracer::{
    advance, deflect, initial_direction, left_cell, right_cell, step_limit, trace_beam, Direction,
};

fn pt(y: i32, x: i32) -> Point {
    Point { y, x }
}

fn grid_with(h: usize, w: usize, raised: &[(usize, usize)]) -> Grid {
    let mut g = Grid::new(h, w).unwrap();
    for &(r, c) in raised {
        assert!(g.set(r, c, true));
    }
    g
}

#[test]
fn lowered_grid_lets_beam_cross_from_left() {
    let g = grid_with(3, 3, &[]);
    let t = trace_beam(&g, pt(1, -1));
    assert_eq!(t.path, vec![pt(1, -1), pt(1, 0), pt(1, 1), pt(1, 2), pt(1, 3), pt(1, 4)]);
    assert_eq!(*t.path.last().unwrap(), pt(1, 4));
}

#[test]
fn lowered_grid_lets_beam_cross_from_each_ring() {
    let g = grid_with(2, 4, &[]);
    assert_eq!(*trace_beam(&g, pt(3, 2)).path.last().unwrap(), pt(-1, 2));
    assert_eq!(*trace_beam(&g, pt(0, 5)).path.last().unwrap(), pt(0, -1));
    assert_eq!(*trace_beam(&g, pt(-1, 4)).path.last().unwrap(), pt(3, 4));
    assert_eq!(*trace_beam(&g, pt(2, -1)).path.last().unwrap(), pt(2, 5));
    assert_eq!(trace_beam(&g, pt(3, 2)).path.len(), 5);
    assert_eq!(trace_beam(&g, pt(0, 5)).path.len(), 7);
}

#[test]
fn pad_on_the_left_turns_beam_right() {
    let g = grid_with(3, 3, &[(0, 0)]);
    let t = trace_beam(&g, pt(1, -1));
    assert_eq!(t.path, vec![pt(1, -1), pt(1, 0), pt(2, 0), pt(3, 0), pt(4, 0)]);
}

#[test]
fn pad_on_the_right_turns_beam_left() {
    let g = grid_with(3, 3, &[(1, 0)]);
    let t = trace_beam(&g, pt(1, -1));
    assert_eq!(t.path, vec![pt(1, -1), pt(1, 0), pt(0, 0), pt(-1, 0)]);
}

#[test]
fn two_pads_absorb_beam() {
    let g = grid_with(3, 3, &[(0, 0), (1, 0)]);
    let t = trace_beam(&g, pt(1, -1));
    assert_eq!(t.path, vec![pt(1, -1), pt(1, 0)]);
    assert_eq!(*t.path.last().unwrap(), pt(1, 0));
}

#[test]
fn reads_are_the_cells_ahead() {
    let g = grid_with(1, 1, &[(0, 0)]);
    let t = trace_beam(&g, pt(0, -1));
    assert_eq!(t.path, vec![pt(0, -1), pt(0, 0), pt(-1, 0)]);
    assert_eq!(
        t.reads,
        vec![pt(-1, -1), pt(0, -1), pt(-1, 0), pt(0, 0), pt(-2, -1), pt(-2, 0)]
    );
}

#[test]
fn initial_direction_follows_the_ring() {
    let g = grid_with(2, 3, &[]);
    assert_eq!(initial_direction(&g, pt(1, -1)), Direction::East);
    assert_eq!(initial_direction(&g, pt(3, 1)), Direction::North);
    assert_eq!(initial_direction(&g, pt(1, 4)), Direction::West);
    assert_eq!(initial_direction(&g, pt(-1, 1)), Direction::South);
}

#[test]
fn deflect_covers_the_four_cases() {
    assert_eq!(deflect(Direction::East, false, false), Some(Direction::East));
    assert_eq!(deflect(Direction::East, true, false), Some(Direction::South));
    assert_eq!(deflect(Direction::East, false, true), Some(Direction::North));
    assert_eq!(deflect(Direction::East, true, true), None);
    assert_eq!(deflect(Direction::South, true, false), Some(Direction::West));
    assert_eq!(deflect(Direction::West, false, true), Some(Direction::South));
}

#[test]
fn neighbours_and_steps() {
    assert_eq!(left_cell(pt(2, 2), Direction::West), pt(2, 1));
    assert_eq!(right_cell(pt(2, 2), Direction::West), pt(1, 1));
    assert_eq!(left_cell(pt(2, 2), Direction::North), pt(1, 1));
    assert_eq!(right_cell(pt(2, 2), Direction::North), pt(1, 2));
    assert_eq!(left_cell(pt(2, 2), Direction::East), pt(1, 2));
    assert_eq!(right_cell(pt(2, 2), Direction::East), pt(2, 2));
    assert_eq!(left_cell(pt(2, 2), Direction::South), pt(2, 2));
    assert_eq!(right_cell(pt(2, 2), Direction::South), pt(2, 1));
    assert_eq!(advance(pt(2, 2), Direction::West), pt(2, 1));
    assert_eq!(advance(pt(2, 2), Direction::North), pt(1, 2));
    assert_eq!(advance(pt(2, 2), Direction::East), pt(2, 3));
    assert_eq!(advance(pt(2, 2), Direction::South), pt(3, 2));
    assert_eq!(Direction::South.right(), Direction::West);
    assert_eq!(Direction::West.left(), Direction::South);
}

#[test]
fn step_limit_counts_points_and_headings() {
    let g = grid_with(1, 1, &[]);
    assert_eq!(step_limit(&g), 64);
    let g = grid_with(3, 5, &[]);
    assert_eq!(step_limit(&g), 4 * 6 * 8);
}

#[test]
fn grid_reads_and_sets_pads() {
    assert!(Grid::new(0, 3).is_none());
    assert!(Grid::new(3, 0).is_none());
    assert!(Grid::new(16_001, 1).is_none());
    let mut g = Grid::new(2, 3).unwrap();
    assert_eq!((g.height(), g.width()), (2, 3));
    assert!(!g.raised(1, 2));
    assert!(g.set(1, 2, true));
    assert!(g.raised(1, 2));
    assert!(!g.set(1, 2, true));
    assert!(!g.set(2, 0, true));
    assert!(!g.raised(2, 0));
    assert!(!g.raised(-1, 0));
    assert!(g.set(1, 2, false));
    assert!(!g.raised(1, 2));
}

#[test]
fn colours_have_their_classes() {
    assert_eq!(Color::Red.fill(), "fill-red-500");
    assert_eq!(Color::Yellow.fill(), "fill-yellow-500");
    assert_eq!(Color::Green.fill(), "fill-green-500");
    assert_eq!(Color::Blue.fill(), "fill-blue-500");
    assert_eq!(Color::Purple.fill(), "fill-purple-500");
}
