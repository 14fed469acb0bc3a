use laser_pads::board::{Color, Placement, Point};
use laser_pads::level::{
    boundary_point, level_from_href, level_from_pairs, parse_level, parse_number, parse_placement,
    token_end, LoadError,
};
use laser_pads::puzzle::Puzzle;
use laser_pads::render::{
    beam_segments, canvas_extent, clock_fields, clock_text, decimal, mark, pad_action, pad_rect, segment, Rect,
};

fn bytes(s: &str) -> Vec<u8> {
    s.as_bytes().to_vec()
}

#[test]
fn boundary_indices_run_around_the_grid() {
    let (h, w) = (2, 3);
    assert_eq!(boundary_point(h, w, 0), Some(Point { y: 0, x: -1 }));
    assert_eq!(boundary_point(h, w, 2), Some(Point { y: 2, x: -1 }));
    assert_eq!(boundary_point(h, w, 3), Some(Point { y: 3, x: 0 }));
    assert_eq!(boundary_point(h, w, 6), Some(Point { y: 3, x: 3 }));
    assert_eq!(boundary_point(h, w, 7), Some(Point { y: 2, x: 4 }));
    assert_eq!(boundary_point(h, w, 9), Some(Point { y: 0, x: 4 }));
    assert_eq!(boundary_point(h, w, 10), Some(Point { y: -1, x: 3 }));
    assert_eq!(boundary_point(h, w, 13), Some(Point { y: -1, x: 0 }));
    assert_eq!(boundary_point(h, w, 14), None);
    assert_eq!(boundary_point(16_001, 1, 0), None);
}

#[test]
fn numbers_are_decimal() {
    let t = bytes("12-+7-x-007--99999");
    assert_eq!(parse_number(&t, 0, 2, 100), Some(12));
    assert_eq!(parse_number(&t, 3, 5, 100), Some(7));
    assert_eq!(parse_number(&t, 3, 4, 100), None);
    assert_eq!(parse_number(&t, 6, 7, 100), None);
    assert_eq!(parse_number(&t, 8, 11, 100), Some(7));
    assert_eq!(parse_number(&t, 12, 12, 100), None);
    assert_eq!(parse_number(&t, 13, 18, 100), None);
    assert_eq!(parse_number(&t, 13, 18, 99_999), Some(99_999));
    assert_eq!(parse_number(&t, 0, 2, 11), None);
    assert_eq!(token_end(&t, 0), 2);
    assert_eq!(token_end(&t, 12), 12);
    assert_eq!(token_end(&t, 13), 18);
}

#[test]
fn placements_name_colour_kind_and_point() {
    let t = bytes("R0-g5-b99-x1-Y");
    let red = Placement { at: Point { y: 0, x: -1 }, color: Color::Red };
    let green = Placement { at: Point { y: 0, x: 2 }, color: Color::Green };
    assert_eq!(parse_placement(&t, 0, 2, 1, 1), Some((true, red)));
    assert_eq!(parse_placement(&t, 3, 5, 1, 1), Some((false, green)));
    assert_eq!(parse_placement(&t, 6, 9, 1, 1), None);
    assert_eq!(parse_placement(&t, 10, 12, 1, 1), None);
    assert_eq!(parse_placement(&t, 13, 14, 1, 1), None);
    assert_eq!(parse_placement(&t, 3, 3, 1, 1), None);
}

#[test]
fn level_text_is_read() {
    let l = parse_level(&bytes("1-1-R0-r5")).unwrap();
    assert_eq!((l.height, l.width), (1, 1));
    assert_eq!(l.beams, vec![Placement { at: Point { y: 0, x: -1 }, color: Color::Red }]);
    assert_eq!(l.targets, vec![Placement { at: Point { y: 0, x: 2 }, color: Color::Red }]);
    let l = parse_level(&bytes("3-4-P2-y7-B13-G0")).unwrap();
    assert_eq!((l.height, l.width), (3, 4));
    assert_eq!(l.beams.len(), 3);
    assert_eq!(l.beams[1], Placement { at: Point { y: -1, x: 4 }, color: Color::Blue });
    assert_eq!(l.targets, vec![Placement { at: Point { y: 4, x: 3 }, color: Color::Yellow }]);
    let l = parse_level(&bytes("2-2")).unwrap();
    assert!(l.beams.is_empty() && l.targets.is_empty());
}

#[test]
fn bad_level_text_is_refused() {
    for text in ["", "3", "3-", "0-3", "3-0", "a-3", "3-4-", "3-4-R", "3-4-R18", "3-4-X1", "3-4-R1-", "16001-1", "3-4-R-1"] {
        assert!(parse_level(&bytes(text)).is_none());
    }
    assert!(parse_level(&bytes("3-4-R17")).is_some());
    assert!(parse_level(&bytes("16000-1")).is_some());
}

#[test]
fn last_q_parameter_is_the_level() {
    let pairs = vec![
        (bytes("q"), bytes("nonsense")),
        (bytes("x"), bytes("1-1")),
        (bytes("q"), bytes("2-3-R0")),
        (bytes("qq"), bytes("4-4")),
    ];
    let l = level_from_pairs(&pairs).unwrap();
    assert_eq!((l.height, l.width, l.beams.len()), (2, 3, 1));
    let pairs = vec![(bytes("q"), bytes("2-3")), (bytes("q"), bytes("bad"))];
    assert_eq!(level_from_pairs(&pairs).err(), Some(LoadError::BadLevel));
    let pairs = vec![(bytes("Q"), bytes("2-3"))];
    assert_eq!(level_from_pairs(&pairs).err(), Some(LoadError::NoQuery));
    assert_eq!(level_from_pairs(&vec![]).err(), Some(LoadError::NoQuery));
}

#[test]
fn address_carries_the_level() {
    let l = level_from_href("https://example.com/play?x=1&q=1-1-R0-r5#top").unwrap();
    assert_eq!((l.height, l.width), (1, 1));
    assert_eq!(l.beams, vec![Placement { at: Point { y: 0, x: -1 }, color: Color::Red }]);
    let mut p = Puzzle::new(l.height, l.width, l.beams, l.targets).unwrap();
    assert!(p.target_hit(0));
    let l = level_from_href("https://example.com/?q=2%2D3%2DG4").unwrap();
    assert_eq!((l.height, l.width), (2, 3));
    assert_eq!(l.beams, vec![Placement { at: Point { y: 3, x: 1 }, color: Color::Green }]);
    assert_eq!(level_from_href("not an address").err(), Some(LoadError::BadUrl));
    assert_eq!(level_from_href("https://example.com/?p=1-1").err(), Some(LoadError::NoQuery));
    assert_eq!(level_from_href("https://example.com/").err(), Some(LoadError::NoQuery));
    assert_eq!(level_from_href("https://example.com/?q=1").err(), Some(LoadError::BadLevel));
}

#[test]
fn bars_join_points_that_follow_each_other() {
    let path = vec![Point { y: 0, x: -1 }, Point { y: 0, x: 0 }, Point { y: -1, x: 0 }];
    assert_eq!(
        beam_segments(&path),
        vec![
            Rect { x: -1, y: 15, width: 18, height: 2 },
            Rect { x: 15, y: -1, width: 2, height: 18 }
        ]
    );
    assert!(beam_segments(&vec![Point { y: 0, x: 0 }]).is_empty());
    assert!(beam_segments(&vec![]).is_empty());
    assert_eq!(
        segment(Point { y: 2, x: 3 }, Point { y: 2, x: 2 }),
        Rect { x: 47, y: 47, width: 18, height: 2 }
    );
}

#[test]
fn marks_and_pads_have_their_squares() {
    assert_eq!(mark(Point { y: 0, x: -1 }, 4), Rect { x: -4, y: 12, width: 8, height: 8 });
    assert_eq!(mark(Point { y: 1, x: 2 }, 6), Rect { x: 42, y: 26, width: 12, height: 12 });
    assert_eq!(pad_rect(1, 2), Rect { x: 48, y: 32, width: 16, height: 16 });
    assert_eq!(mark(Point { y: 2, x: 0 }, 1), Rect { x: 15, y: 47, width: 2, height: 2 });
    assert_eq!(canvas_extent(2, 5, 64), (512, 320));
    assert_eq!(canvas_extent(2, 5, 16), (128, 80));
}

#[test]
fn buttons_raise_or_lower() {
    assert_eq!(pad_action(0), None);
    assert_eq!(pad_action(1), Some(true));
    assert_eq!(pad_action(2), Some(false));
    assert_eq!(pad_action(3), None);
    assert_eq!(pad_action(4), None);
    assert_eq!(pad_action(5), Some(true));
    assert_eq!(pad_action(6), Some(false));
}

#[test]
fn clock_shows_minutes_and_seconds() {
    assert_eq!(clock_fields(0), (0, 0));
    assert_eq!(clock_fields(59), (0, 59));
    assert_eq!(clock_fields(60), (1, 0));
    assert_eq!(clock_fields(6_125), (102, 5));
}

#[test]
fn clock_text_has_two_digits_at_least() {
    assert_eq!(clock_text(0), b"00:00".to_vec());
    assert_eq!(clock_text(59), b"00:59".to_vec());
    assert_eq!(clock_text(605), b"10:05".to_vec());
    assert_eq!(clock_text(6_125), b"102:05".to_vec());
    assert_eq!(clock_text(u32::MAX), b"71582788:15".to_vec());
    assert_eq!(decimal(0), b"0".to_vec());
    assert_eq!(decimal(4_096), b"4096".to_vec());
}
