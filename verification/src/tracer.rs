//! The beam tracer: from a grid and an entry point to the path of the beam,
//! and the pads that the path was read from.

use crate::board::{Grid, Point};
use crate::laws::lemma_path_is_bounded;
use vstd::prelude::*;

verus! {

/// The heading of a beam. Turning right goes one variant down the list
/// (and from `South` back to `West`); turning left goes one up.
#[derive(Copy, Clone, PartialEq, Eq, Structural, Debug)]
pub enum Direction {
    West,
    North,
    East,
    South,
}

impl Direction {
    pub open spec fn spec_right(self) -> Direction {
        match self {
            Direction::West => Direction::North,
            Direction::North => Direction::East,
            Direction::East => Direction::South,
            Direction::South => Direction::West,
        }
    }

    pub open spec fn spec_left(self) -> Direction {
        match self {
            Direction::West => Direction::South,
            Direction::North => Direction::West,
            Direction::East => Direction::North,
            Direction::South => Direction::East,
        }
    }

    pub open spec fn dy(self) -> int {
        match self {
            Direction::North => -1,
            Direction::South => 1,
            _ => 0,
        }
    }

    pub open spec fn dx(self) -> int {
        match self {
            Direction::West => -1,
            Direction::East => 1,
            _ => 0,
        }
    }

    pub fn right(self) -> (d: Direction)
        ensures
            d == self.spec_right(),
    {
        match self {
            Direction::West => Direction::North,
            Direction::North => Direction::East,
            Direction::East => Direction::South,
            Direction::South => Direction::West,
        }
    }

    pub fn left(self) -> (d: Direction)
        ensures
            d == self.spec_left(),
    {
        match self {
            Direction::West => Direction::South,
            Direction::North => Direction::West,
            Direction::East => Direction::North,
            Direction::South => Direction::East,
        }
    }
}

/// The cell ahead of `p` on the left of a beam heading `d`.
pub open spec fn spec_left_cell(p: Point, d: Direction) -> Point {
    match d {
        Direction::West => Point { y: p.y, x: (p.x - 1) as i32 },
        Direction::North => Point { y: (p.y - 1) as i32, x: (p.x - 1) as i32 },
        Direction::East => Point { y: (p.y - 1) as i32, x: p.x },
        Direction::South => Point { y: p.y, x: p.x },
    }
}

/// The cell ahead of `p` on the right of a beam heading `d`.
pub open spec fn spec_right_cell(p: Point, d: Direction) -> Point {
    spec_left_cell(p, d.spec_right())
}

/// The heading a beam takes at a point, from the states of the pads ahead
/// on its left and on its right; `None` where both are raised and the beam
/// is absorbed.
pub open spec fn spec_deflect(d: Direction, left: bool, right: bool) -> Option<Direction> {
    if left && right {
        None
    } else if left {
        Some(d.spec_right())
    } else if right {
        Some(d.spec_left())
    } else {
        Some(d)
    }
}

pub open spec fn spec_turn(g: Grid, p: Point, d: Direction) -> Option<Direction> {
    let l = spec_left_cell(p, d);
    let r = spec_right_cell(p, d);
    spec_deflect(d, g.spec_raised(l.y as int, l.x as int), g.spec_raised(r.y as int, r.x as int))
}

pub open spec fn spec_advance(p: Point, d: Direction) -> Point {
    Point { y: (p.y + d.dy()) as i32, x: (p.x + d.dx()) as i32 }
}

/// The heading of a beam that enters at `p`: away from the ring `p` is on.
pub open spec fn spec_initial_direction(g: Grid, p: Point) -> Direction {
    if p.x == -1 {
        Direction::East
    } else if p.y == g.spec_height() + 1 {
        Direction::North
    } else if p.x == g.spec_width() + 1 {
        Direction::West
    } else {
        Direction::South
    }
}

/// The most points a path may have: one for each pair of a point inside
/// the margin and a heading, and some to spare. A beam that repeats such a
/// pair runs in a circle.
pub open spec fn spec_step_limit(g: Grid) -> nat {
    (4 * (g.spec_height() + 3) * (g.spec_width() + 3)) as nat
}

/// The path of a beam that stands at `p` heading `d` and may add `fuel`
/// more points. It ends where the beam leaves the margin, where it is
/// absorbed, or, with the last point that `fuel` allows, where it stands.
pub open spec fn spec_path_from(g: Grid, p: Point, d: Direction, fuel: nat) -> Seq<Point>
    decreases fuel,
{
    if fuel == 0 || g.beyond_margin(p) {
        Seq::empty()
    } else if fuel == 1 {
        seq![p]
    } else {
        match spec_turn(g, p, d) {
            None => seq![p],
            Some(e) => seq![p] + spec_path_from(g, spec_advance(p, e), e, (fuel - 1) as nat),
        }
    }
}

/// The cells that path was read from, in the order of reading: at each
/// point where the beam decides, the cell ahead on its left, then the one
/// ahead on its right, whether or not the grid has a pad there.
pub open spec fn spec_reads_from(g: Grid, p: Point, d: Direction, fuel: nat) -> Seq<Point>
    decreases fuel,
{
    if fuel <= 1 || g.beyond_margin(p) {
        Seq::empty()
    } else {
        let here = seq![spec_left_cell(p, d), spec_right_cell(p, d)];
        match spec_turn(g, p, d) {
            None => here,
            Some(e) => here + spec_reads_from(g, spec_advance(p, e), e, (fuel - 1) as nat),
        }
    }
}

pub open spec fn spec_beam_path(g: Grid, entry: Point) -> Seq<Point> {
    spec_path_from(g, entry, spec_initial_direction(g, entry), spec_step_limit(g))
}

pub open spec fn spec_beam_reads(g: Grid, entry: Point) -> Seq<Point> {
    spec_reads_from(g, entry, spec_initial_direction(g, entry), spec_step_limit(g))
}

/// What one run of the tracer yields.
pub struct Trace {
    /// The points of the beam, from its entry to its last point.
    pub path: Vec<Point>,
    /// The cells that were looked at on the way; those outside the grid
    /// hold no pad.
    pub reads: Vec<Point>,
}

pub fn left_cell(p: Point, d: Direction) -> (c: Point)
    requires
        i32::MIN < p.y,
        i32::MIN < p.x,
    ensures
        c == spec_left_cell(p, d),
{
    match d {
        Direction::West => Point { y: p.y, x: p.x - 1 },
        Direction::North => Point { y: p.y - 1, x: p.x - 1 },
        Direction::East => Point { y: p.y - 1, x: p.x },
        Direction::South => Point { y: p.y, x: p.x },
    }
}

pub fn right_cell(p: Point, d: Direction) -> (c: Point)
    requires
        i32::MIN < p.y,
        i32::MIN < p.x,
    ensures
        c == spec_right_cell(p, d),
{
    left_cell(p, d.right())
}

pub fn deflect(d: Direction, left: bool, right: bool) -> (next: Option<Direction>)
    ensures
        next == spec_deflect(d, left, right),
{
    if left && right {
        None
    } else if left {
        Some(d.right())
    } else if right {
        Some(d.left())
    } else {
        Some(d)
    }
}

pub fn advance(p: Point, d: Direction) -> (q: Point)
    requires
        i32::MIN < p.y < i32::MAX,
        i32::MIN < p.x < i32::MAX,
    ensures
        q == spec_advance(p, d),
        q.y == p.y + d.dy(),
        q.x == p.x + d.dx(),
{
    match d {
        Direction::West => Point { y: p.y, x: p.x - 1 },
        Direction::North => Point { y: p.y - 1, x: p.x },
        Direction::East => Point { y: p.y, x: p.x + 1 },
        Direction::South => Point { y: p.y + 1, x: p.x },
    }
}

pub fn initial_direction(grid: &Grid, p: Point) -> (d: Direction)
    requires
        grid.wf(),
    ensures
        d == spec_initial_direction(*grid, p),
{
    let h: i32 = grid.height() as i32;
    let w: i32 = grid.width() as i32;
    if p.x == -1 {
        Direction::East
    } else if p.y == h + 1 {
        Direction::North
    } else if p.x == w + 1 {
        Direction::West
    } else {
        Direction::South
    }
}

pub fn beyond_margin(grid: &Grid, p: Point) -> (out: bool)
    requires
        grid.wf(),
    ensures
        out == grid.beyond_margin(p),
{
    let h: i32 = grid.height() as i32;
    let w: i32 = grid.width() as i32;
    p.y == -2 || p.y == h + 2 || p.x == -2 || p.x == w + 2
}

pub fn step_limit(grid: &Grid) -> (limit: usize)
    requires
        grid.wf(),
    ensures
        limit == spec_step_limit(*grid),
        limit >= grid.spec_height() + 3,
        limit >= grid.spec_width() + 3,
{
    let h: usize = grid.height() + 3;
    let w: usize = grid.width() + 3;
    assert(4 * h * w <= 4 * 16_003 * 16_003 && 4 * h * w >= h && 4 * h * w >= w) by (nonlinear_arith)
        requires
            3 <= h <= 16_003,
            3 <= w <= 16_003,
    ;
    4 * h * w
}

/// Traces the beam that enters the grid at `entry`.
///
/// The path starts at `entry`, keeps inside the margin around the grid, and
/// is the one that the rules of deflection give, cut off at the step limit.
pub fn trace_beam(grid: &Grid, entry: Point) -> (t: Trace)
    requires
        grid.wf(),
        grid.within_margin(entry),
    ensures
        t.path@ == spec_beam_path(*grid, entry),
        t.reads@ == spec_beam_reads(*grid, entry),
        1 <= t.path@.len() <= spec_step_limit(*grid),
        t.path@[0] == entry,
        forall|i: int| 0 <= i < t.path@.len() ==> grid.within_margin(#[trigger] t.path@[i]),
{
    let mut path: Vec<Point> = Vec::new();
    let mut reads: Vec<Point> = Vec::new();
    let mut p: Point = entry;
    let mut d: Direction = initial_direction(grid, entry);
    let mut fuel: usize = step_limit(grid);
    let mut done: bool = false;
    while !done
        invariant
            grid.wf(),
            grid.within_margin(entry),
            -2 <= p.y <= grid.spec_height() + 2,
            -2 <= p.x <= grid.spec_width() + 2,
            path@.len() == 0 ==> p == entry && !done && fuel >= 1,
            path@.len() > 0 ==> path@[0] == entry,
            forall|i: int| 0 <= i < path@.len() ==> grid.within_margin(#[trigger] path@[i]),
            spec_beam_path(*grid, entry) == path@ + (if done {
                Seq::<Point>::empty()
            } else {
                spec_path_from(*grid, p, d, fuel as nat)
            }),
            spec_beam_reads(*grid, entry) == reads@ + (if done {
                Seq::<Point>::empty()
            } else {
                spec_reads_from(*grid, p, d, fuel as nat)
            }),
        decreases (if done { 0 } else { fuel + 1 }),
    {
        let ghost rest = spec_path_from(*grid, p, d, fuel as nat);
        let ghost rest_reads = spec_reads_from(*grid, p, d, fuel as nat);
        if fuel == 0 || beyond_margin(grid, p) {
            done = true;
        } else {
            let ghost before = path@;
            let ghost before_reads = reads@;
            path.push(p);
            if fuel == 1 {
                done = true;
                assert(before + rest =~= path@ + Seq::<Point>::empty());
            } else {
                let lc: Point = left_cell(p, d);
                let rc: Point = right_cell(p, d);
                reads.push(lc);
                reads.push(rc);
                let next: Option<Direction> = deflect(
                    d,
                    grid.raised(lc.y, lc.x),
                    grid.raised(rc.y, rc.x),
                );
                match next {
                    None => {
                        done = true;
                        assert(before + rest =~= path@ + Seq::<Point>::empty());
                        assert(before_reads + rest_reads =~= reads@ + Seq::<Point>::empty());
                    },
                    Some(e) => {
                        let q: Point = advance(p, e);
                        assert(before + rest =~= path@ + spec_path_from(
                            *grid,
                            q,
                            e,
                            (fuel - 1) as nat,
                        ));
                        assert(before_reads + rest_reads =~= reads@ + spec_reads_from(
                            *grid,
                            q,
                            e,
                            (fuel - 1) as nat,
                        ));
                        p = q;
                        d = e;
                        fuel -= 1;
                    },
                }
            }
        }
    }
    assert(path@ + Seq::<Point>::empty() =~= path@);
    assert(reads@ + Seq::<Point>::empty() =~= reads@);
    proof {
        lemma_path_is_bounded(
            *grid,
            entry,
            spec_initial_direction(*grid, entry),
            spec_step_limit(*grid),
        );
    }
    Trace { path, reads }
}

} // verus!
