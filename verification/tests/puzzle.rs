use laser_pads::board::{Color, Placement, Point};
use laser_pads::puzzle::{contains_cell, copy_points, latch, lights, Puzzle};

fn at(y: i32, x: i32, color: Color) -> Placement {
    Placement { at: Point { y, x }, color }
}

fn one_by_one() -> Puzzle {
    Puzzle::new(1, 1, vec![at(0, -1, Color::Red)], vec![at(0, 2, Color::Red)]).unwrap()
}

#[test]
fn straight_beam_hits_target() {
    let mut p = one_by_one();
    assert_eq!(
        p.beam_path(0),
        vec![
            Point { y: 0, x: -1 },
            Point { y: 0, x: 0 },
            Point { y: 0, x: 1 },
            Point { y: 0, x: 2 }
        ]
    );
    assert!(p.target_hit(0));
    assert_eq!(p.solve_time(17), Some(17));
}

#[test]
fn raised_pad_keeps_beam_from_target() {
    let mut p = one_by_one();
    assert!(p.set_pad(0, 0, true));
    assert!(p.pad(0, 0));
    assert!(!p.target_hit(0));
    assert_eq!(
        p.beam_path(0),
        vec![Point { y: 0, x: -1 }, Point { y: 0, x: 0 }, Point { y: -1, x: 0 }]
    );
    assert_eq!(p.solve_time(5), None);
}

#[test]
fn second_read_does_not_trace_again() {
    let mut p = one_by_one();
    assert!(!p.is_beam_fresh(0));
    assert!(p.refresh_beam(0));
    assert!(p.is_beam_fresh(0));
    let first = p.beam_path(0);
    assert!(!p.refresh_beam(0));
    let second = p.beam_path(0);
    assert_eq!(first, second);
    assert!(!p.is_target_fresh(0));
    let hit = p.target_hit(0);
    assert!(p.is_target_fresh(0));
    assert_eq!(p.target_hit(0), hit);
    assert!(p.is_target_fresh(0));
}

#[test]
fn only_a_read_pad_makes_a_beam_stale() {
    let beams = vec![at(1, -1, Color::Blue), at(-1, 3, Color::Green)];
    let targets = vec![at(1, 4, Color::Blue)];
    let mut p = Puzzle::new(3, 3, beams, targets).unwrap();
    let before = p.beam_path(0);
    let other = p.beam_path(1);
    assert!(p.target_hit(0));
    assert!(p.set_pad(2, 1, true));
    assert!(p.is_beam_fresh(0));
    assert!(p.is_beam_fresh(1));
    assert!(p.is_target_fresh(0));
    assert_eq!(p.beam_path(0), before);
    assert!(p.set_pad(0, 1, true));
    assert!(!p.is_beam_fresh(0));
    assert!(p.is_beam_fresh(1));
    assert!(!p.is_target_fresh(0));
    let after = p.beam_path(0);
    assert_ne!(after, before);
    assert_eq!(
        after,
        vec![
            Point { y: 1, x: -1 },
            Point { y: 1, x: 0 },
            Point { y: 1, x: 1 },
            Point { y: 2, x: 1 },
            Point { y: 2, x: 0 },
            Point { y: 2, x: -1 }
        ]
    );
    assert_eq!(p.beam_path(1), other);
    assert!(!p.target_hit(0));
}

#[test]
fn setting_a_pad_to_its_state_changes_nothing() {
    let mut p = one_by_one();
    let _ = p.target_hit(0);
    assert!(!p.set_pad(0, 0, false));
    assert!(p.is_beam_fresh(0));
    assert!(p.is_target_fresh(0));
    assert!(!p.set_pad(3, 3, true));
    assert!(!p.pad(3, 3));
    assert!(p.is_beam_fresh(0));
}

#[test]
fn target_needs_the_beams_colour() {
    let mut p =
        Puzzle::new(1, 1, vec![at(0, -1, Color::Red)], vec![at(0, 2, Color::Blue)]).unwrap();
    assert!(!p.target_hit(0));
    assert_eq!(p.solve_time(1), None);
}

#[test]
fn target_looks_past_beams_that_miss() {
    let beams = vec![at(0, -1, Color::Red), at(1, -1, Color::Red)];
    let targets = vec![at(1, 3, Color::Red), at(0, 3, Color::Red)];
    let mut p = Puzzle::new(2, 2, beams, targets).unwrap();
    assert!(p.target_hit(0));
    assert!(p.target_hit(1));
    assert_eq!((p.beam_count(), p.target_count()), (2, 2));
}

#[test]
fn solve_time_is_latched() {
    let mut p = one_by_one();
    assert_eq!(p.solved_at(), None);
    assert_eq!(p.solve_time(40), Some(40));
    assert!(p.set_pad(0, 0, true));
    assert!(!p.target_hit(0));
    assert_eq!(p.solve_time(90), Some(40));
    assert_eq!(p.solved_at(), Some(40));
    assert!(p.set_pad(0, 0, false));
    assert_eq!(p.solve_time(120), Some(40));
}

#[test]
fn solve_time_waits_for_every_target() {
    let beams = vec![at(0, -1, Color::Red)];
    let targets = vec![at(0, 2, Color::Red), at(-1, 0, Color::Red)];
    let mut p = Puzzle::new(1, 1, beams, targets).unwrap();
    assert_eq!(p.solve_time(3), None);
    p.set_pad(0, 0, true);
    assert_eq!(p.solve_time(4), None);
    assert_eq!(p.solved_at(), None);
}

#[test]
fn puzzle_without_targets_is_solved_at_once() {
    let mut p = Puzzle::new(2, 2, vec![], vec![]).unwrap();
    assert_eq!(p.solve_time(9), Some(9));
}

#[test]
fn puzzle_refuses_bad_sides_and_entries() {
    assert!(Puzzle::new(0, 1, vec![], vec![]).is_none());
    assert!(Puzzle::new(1, 16_001, vec![], vec![]).is_none());
    assert!(Puzzle::new(1, 1, vec![at(0, -2, Color::Red)], vec![]).is_none());
    assert!(Puzzle::new(1, 1, vec![at(3, 0, Color::Red)], vec![]).is_none());
    assert!(Puzzle::new(1, 1, vec![at(2, 2, Color::Red)], vec![]).is_some());
}

#[test]
fn latch_keeps_the_first_time() {
    assert_eq!(latch(None, false, 5), None);
    assert_eq!(latch(None, true, 5), Some(5));
    assert_eq!(latch(Some(2), false, 5), Some(2));
    assert_eq!(latch(Some(2), true, 5), Some(2));
}

#[test]
fn helpers_on_points() {
    let path = vec![Point { y: 0, x: -1 }, Point { y: 0, x: 0 }];
    assert!(lights(&path, Color::Red, at(0, 0, Color::Red)));
    assert!(!lights(&path, Color::Red, at(0, -1, Color::Red)));
    assert!(!lights(&path, Color::Blue, at(0, 0, Color::Red)));
    assert!(contains_cell(&path, Point { y: 0, x: 0 }));
    assert!(!contains_cell(&path, Point { y: 1, x: 0 }));
    assert_eq!(copy_points(&path), path);
}

#[test]
fn verdict_is_kept_until_a_target_it_saw_goes_stale() {
    let beams = vec![at(1, -1, Color::Blue)];
    let targets = vec![at(1, 4, Color::Red), at(1, 4, Color::Blue)];
    let mut p = Puzzle::new(3, 3, beams, targets).unwrap();
    assert!(!p.is_verdict_fresh());
    assert_eq!(p.solve_time(1), None);
    assert!(p.is_verdict_fresh());
    assert!(p.is_target_fresh(0));
    assert!(!p.is_target_fresh(1));
    assert!(p.set_pad(2, 2, true));
    assert!(p.is_verdict_fresh());
    assert_eq!(p.solve_time(2), None);
    assert!(p.set_pad(0, 1, true));
    assert!(!p.is_verdict_fresh());
    assert!(!p.is_target_fresh(0));
    assert_eq!(p.solve_time(3), None);
    assert!(p.is_verdict_fresh());
}
