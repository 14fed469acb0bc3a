//! What the display needs beyond the puzzle itself: the rectangles that
//! stand for beams, marks and pads, the fields of the clock, and what a
//! pointer's buttons ask of a pad.

use crate::board::{Point, MAX_SIDE};
use itertools::Itertools;
use vstd::prelude::*;

verus! {

/// A rectangle of the drawing, in its units: a cell is 16 wide and high.
#[derive(Copy, Clone, PartialEq, Eq, Structural, Debug)]
pub struct Rect {
    pub x: i32,
    pub y: i32,
    pub width: i32,
    pub height: i32,
}

/// The point is on a grid of at most `MAX_SIDE` a side or on its margin.
pub open spec fn drawable(p: Point) -> bool {
    -1 <= p.y <= MAX_SIDE + 1 && -1 <= p.x <= MAX_SIDE + 1
}

pub open spec fn spec_lesser(a: int, b: int) -> int {
    if a <= b {
        a
    } else {
        b
    }
}

pub open spec fn spec_greater(a: int, b: int) -> int {
    if a <= b {
        b
    } else {
        a
    }
}

/// The bar that joins two points of a path: it covers both and is 2 thick.
pub open spec fn spec_segment(p: Point, q: Point) -> Rect {
    let yl = spec_lesser(p.y as int, q.y as int);
    let yr = spec_greater(p.y as int, q.y as int);
    let xl = spec_lesser(p.x as int, q.x as int);
    let xr = spec_greater(p.x as int, q.x as int);
    Rect {
        x: ((1 + xl) * 16 - 1) as i32,
        y: ((1 + yl) * 16 - 1) as i32,
        width: ((xr - xl) * 16 + 2) as i32,
        height: ((yr - yl) * 16 + 2) as i32,
    }
}

pub fn segment(p: Point, q: Point) -> (bar: Rect)
    requires
        drawable(p),
        drawable(q),
    ensures
        bar == spec_segment(p, q),
{
    let yl: i32 = if p.y <= q.y { p.y } else { q.y };
    let yr: i32 = if p.y <= q.y { q.y } else { p.y };
    let xl: i32 = if p.x <= q.x { p.x } else { q.x };
    let xr: i32 = if p.x <= q.x { q.x } else { p.x };
    Rect {
        x: (1 + xl) * 16 - 1,
        y: (1 + yl) * 16 - 1,
        width: (xr - xl) * 16 + 2,
        height: (yr - yl) * 16 + 2,
    }
}

/// Calls `Itertools::tuple_windows` on the points of a path, for windows of
/// two: each point but the last, paired with the one after it, in order. A
/// path of fewer than two points has no such pair.
#[verifier::external_body]
fn adjacent_pairs(path: &Vec<Point>) -> (pairs: Vec<(Point, Point)>)
    ensures
        pairs@.len() == (if path@.len() == 0 {
            0
        } else {
            path@.len() - 1
        }),
        forall|i: int| 0 <= i < pairs@.len() ==> #[trigger] pairs@[i] == (path@[i], path@[i + 1]),
{
    path.iter().copied().tuple_windows().collect()
}

/// The bars that draw a path: one for each two points that follow each
/// other.
pub fn beam_segments(path: &Vec<Point>) -> (bars: Vec<Rect>)
    requires
        forall|i: int| 0 <= i < path@.len() ==> drawable(#[trigger] path@[i]),
    ensures
        bars@.len() == (if path@.len() == 0 {
            0
        } else {
            path@.len() - 1
        }),
        forall|i: int|
            0 <= i < bars@.len() ==> #[trigger] bars@[i] == spec_segment(path@[i], path@[i + 1]),
{
    let pairs: Vec<(Point, Point)> = adjacent_pairs(path);
    let mut bars: Vec<Rect> = Vec::new();
    let mut i: usize = 0;
    while i < pairs.len()
        invariant
            i <= pairs@.len(),
            bars@.len() == i,
            pairs@.len() == (if path@.len() == 0 {
                0
            } else {
                path@.len() - 1
            }),
            forall|k: int| 0 <= k < path@.len() ==> drawable(#[trigger] path@[k]),
            forall|k: int|
                0 <= k < pairs@.len() ==> #[trigger] pairs@[k] == (path@[k], path@[k + 1]),
            forall|k: int| 0 <= k < i ==> #[trigger] bars@[k] == spec_segment(path@[k], path@[k + 1]),
        decreases pairs@.len() - i,
    {
        let pair: (Point, Point) = pairs[i];
        assert(pair == (path@[i as int], path@[i + 1]));
        bars.push(segment(pair.0, pair.1));
        i += 1;
    }
    bars
}

/// The square mark around a point, `half` to each side.
pub open spec fn spec_mark(p: Point, half: int) -> Rect {
    Rect {
        x: ((1 + p.x) * 16 - half) as i32,
        y: ((1 + p.y) * 16 - half) as i32,
        width: (2 * half) as i32,
        height: (2 * half) as i32,
    }
}

pub fn mark(p: Point, half: i32) -> (square: Rect)
    requires
        drawable(p),
        0 <= half <= 0x3fff_ffff,
    ensures
        square == spec_mark(p, half as int),
{
    Rect { x: (1 + p.x) * 16 - half, y: (1 + p.y) * 16 - half, width: 2 * half, height: 2 * half }
}

/// The square of the pad at (`row`, `col`).
pub fn pad_rect(row: usize, col: usize) -> (square: Rect)
    requires
        row <= MAX_SIDE,
        col <= MAX_SIDE,
    ensures
        square.x == (1 + col) * 16,
        square.y == (1 + row) * 16,
        square.width == 16,
        square.height == 16,
{
    Rect { x: (1 + col as i32) * 16, y: (1 + row as i32) * 16, width: 16, height: 16 }
}

/// The width and the height of the drawing of a grid of `h` by `w`, at
/// `unit` to a cell: the grid, its margin, and half a cell around that.
pub fn canvas_extent(h: usize, w: usize, unit: usize) -> (extent: (usize, usize))
    requires
        h <= MAX_SIDE,
        w <= MAX_SIDE,
        unit <= 1024,
    ensures
        extent.0 == (w + 3) * unit,
        extent.1 == (h + 3) * unit,
{
    assert((w + 3) * unit <= 16_003 * 1024 && (h + 3) * unit <= 16_003 * 1024) by (nonlinear_arith)
        requires
            h <= 16_000,
            w <= 16_000,
            unit <= 1024,
    ;
    ((w + 3) * unit, (h + 3) * unit)
}

/// What the buttons held by a pointer ask of the pad under it: the first
/// button alone raises it, the second alone lowers it, and anything else
/// leaves it.
pub open spec fn spec_pad_action(buttons: u16) -> Option<bool> {
    if buttons & 3 == 1 {
        Some(true)
    } else if buttons & 3 == 2 {
        Some(false)
    } else {
        None
    }
}

pub fn pad_action(buttons: u16) -> (raise: Option<bool>)
    ensures
        raise == spec_pad_action(buttons),
{
    let low: u16 = buttons & 3;
    if low == 1 {
        Some(true)
    } else if low == 2 {
        Some(false)
    } else {
        None
    }
}

/// The minutes and seconds that a clock shows for a count of seconds.
pub fn clock_fields(seconds: u32) -> (fields: (u32, u32))
    ensures
        fields.0 == seconds / 60,
        fields.1 == seconds % 60,
        fields.0 * 60 + fields.1 == seconds,
        fields.1 < 60,
{
    (seconds / 60, seconds % 60)
}

/// The decimal digits of a number, without leading zeros.
pub open spec fn spec_decimal(n: nat) -> Seq<u8>
    decreases n,
{
    if n < 10 {
        seq![(48 + n) as u8]
    } else {
        spec_decimal(n / 10).push((48 + n % 10) as u8)
    }
}

/// The digits of a number, with a zero in front where there is only one.
pub open spec fn spec_two_digits(n: nat) -> Seq<u8> {
    if n < 10 {
        seq![48u8] + spec_decimal(n)
    } else {
        spec_decimal(n)
    }
}

/// What the clock shows for a count of seconds: the minutes and the seconds
/// of the last minute, two digits each at least, with a colon between.
pub open spec fn spec_clock_text(seconds: nat) -> Seq<u8> {
    spec_two_digits(seconds / 60) + seq![58u8] + spec_two_digits(seconds % 60)
}

pub fn decimal(n: u32) -> (digits: Vec<u8>)
    ensures
        digits@ == spec_decimal(n as nat),
    decreases n,
{
    if n < 10 {
        let mut digits: Vec<u8> = Vec::new();
        digits.push(48 + n as u8);
        digits
    } else {
        let mut digits: Vec<u8> = decimal(n / 10);
        digits.push(48 + (n % 10) as u8);
        digits
    }
}

fn push_two_digits(text: &mut Vec<u8>, n: u32)
    ensures
        final(text)@ == old(text)@ + spec_two_digits(n as nat),
{
    let ghost start = text@;
    if n < 10 {
        text.push(48);
    }
    let ghost padded = text@;
    let digits: Vec<u8> = decimal(n);
    let mut i: usize = 0;
    while i < digits.len()
        invariant
            i <= digits@.len(),
            text@ == padded + digits@.subrange(0, i as int),
        decreases digits@.len() - i,
    {
        text.push(digits[i]);
        assert(text@ =~= padded + digits@.subrange(0, i + 1));
        i += 1;
    }
    assert(digits@.subrange(0, digits@.len() as int) =~= digits@);
    assert(text@ =~= start + spec_two_digits(n as nat));
}

/// The text of the clock, in ASCII.
pub fn clock_text(seconds: u32) -> (text: Vec<u8>)
    ensures
        text@ == spec_clock_text(seconds as nat),
{
    let fields: (u32, u32) = clock_fields(seconds);
    let mut text: Vec<u8> = Vec::new();
    push_two_digits(&mut text, fields.0);
    text.push(58);
    push_two_digits(&mut text, fields.1);
    assert(text@ =~= spec_clock_text(seconds as nat));
    text
}

} // verus!
