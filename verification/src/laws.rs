//! What holds of every beam: straight flight over lowered pads, deflection
//! and absorption, and how a path depends on the pads it was read from.

use crate::board::{Grid, Point};
use crate::tracer::{
    spec_advance, spec_beam_path, spec_beam_reads, spec_deflect, spec_initial_direction,
    spec_left_cell, spec_path_from, spec_reads_from, spec_right_cell, spec_step_limit, spec_turn,
    Direction,
};
use vstd::prelude::*;

verus! {

pub open spec fn all_lowered(g: Grid) -> bool {
    forall|y: int, x: int| !g.spec_raised(y, x)
}

/// The point `k` steps from `p` in direction `d`.
pub open spec fn spec_shift(p: Point, d: Direction, k: int) -> Point {
    match d {
        Direction::West => Point { y: p.y, x: (p.x - k) as i32 },
        Direction::North => Point { y: (p.y - k) as i32, x: p.x },
        Direction::East => Point { y: p.y, x: (p.x + k) as i32 },
        Direction::South => Point { y: (p.y + k) as i32, x: p.x },
    }
}

/// The number of points from `p` on, heading `d`, before the margin ends.
pub open spec fn spec_run(g: Grid, p: Point, d: Direction) -> int {
    match d {
        Direction::West => p.x + 2,
        Direction::North => p.y + 2,
        Direction::East => g.spec_width() + 2 - p.x,
        Direction::South => g.spec_height() + 2 - p.y,
    }
}

/// `p` is inside the margin, or one step beyond it straight ahead.
pub open spec fn on_course(g: Grid, p: Point, d: Direction) -> bool {
    let h = g.spec_height();
    let w = g.spec_width();
    match d {
        Direction::West => -1 <= p.y <= h + 1 && -2 <= p.x <= w + 1,
        Direction::North => -2 <= p.y <= h + 1 && -1 <= p.x <= w + 1,
        Direction::East => -1 <= p.y <= h + 1 && -1 <= p.x <= w + 2,
        Direction::South => -1 <= p.y <= h + 2 && -1 <= p.x <= w + 1,
    }
}

/// The boundary point straight across the grid from where a beam enters.
pub open spec fn spec_opposite(g: Grid, entry: Point) -> Point {
    if entry.x == -1 {
        Point { y: entry.y, x: (g.spec_width() + 1) as i32 }
    } else if entry.y == g.spec_height() + 1 {
        Point { y: -1i32, x: entry.x }
    } else if entry.x == g.spec_width() + 1 {
        Point { y: entry.y, x: -1i32 }
    } else {
        Point { y: (g.spec_height() + 1) as i32, x: entry.x }
    }
}

/// Over lowered pads a beam keeps its heading until the margin ends.
pub proof fn lemma_lowered_runs_straight(g: Grid, p: Point, d: Direction, fuel: nat)
    requires
        g.wf(),
        all_lowered(g),
        on_course(g, p, d),
        fuel >= spec_run(g, p, d),
    ensures
        spec_path_from(g, p, d, fuel).len() == spec_run(g, p, d),
        forall|k: int|
            0 <= k < spec_run(g, p, d) ==> #[trigger] spec_path_from(g, p, d, fuel)[k]
                == spec_shift(p, d, k),
    decreases fuel,
{
    let path = spec_path_from(g, p, d, fuel);
    if spec_run(g, p, d) == 0 {
        assert(g.beyond_margin(p));
    } else {
        assert(!g.beyond_margin(p));
        if fuel == 1 {
            assert(path[0] == spec_shift(p, d, 0));
        } else {
            let l = spec_left_cell(p, d);
            let r = spec_right_cell(p, d);
            assert(!g.spec_raised(l.y as int, l.x as int));
            assert(!g.spec_raised(r.y as int, r.x as int));
            assert(spec_turn(g, p, d) == Some(d));
            let q = spec_advance(p, d);
            let rest = spec_path_from(g, q, d, (fuel - 1) as nat);
            lemma_lowered_runs_straight(g, q, d, (fuel - 1) as nat);
            assert(path == seq![p] + rest);
            assert forall|k: int| 0 <= k < spec_run(g, p, d) implies #[trigger] path[k]
                == spec_shift(p, d, k) by {
                if k > 0 {
                    assert(path[k] == rest[k - 1]);
                    assert(spec_shift(q, d, k - 1) == spec_shift(p, d, k));
                }
            }
        }
    }
}

/// The path of a beam that has a point and a step left starts at that point.
pub proof fn lemma_path_starts(g: Grid, p: Point, d: Direction, fuel: nat)
    requires
        fuel >= 1,
        !g.beyond_margin(p),
    ensures
        spec_path_from(g, p, d, fuel).len() >= 1,
        spec_path_from(g, p, d, fuel)[0] == p,
{
}

/// Every beam's path has a point, and its first point is where the beam
/// enters.
pub proof fn lemma_path_begins_at_entry(g: Grid, entry: Point)
    requires
        g.wf(),
        g.within_margin(entry),
    ensures
        spec_beam_path(g, entry).len() >= 1,
        spec_beam_path(g, entry)[0] == entry,
{
    let h = g.spec_height() + 3;
    let w = g.spec_width() + 3;
    assert(4 * h * w >= 1) by (nonlinear_arith)
        requires
            h >= 3,
            w >= 3,
    ;
    lemma_path_starts(g, entry, spec_initial_direction(g, entry), spec_step_limit(g));
}

/// A path has no more points than its steps allow.
pub proof fn lemma_path_is_bounded(g: Grid, p: Point, d: Direction, fuel: nat)
    ensures
        spec_path_from(g, p, d, fuel).len() <= fuel,
    decreases fuel,
{
    if fuel >= 2 && !g.beyond_margin(p) {
        match spec_turn(g, p, d) {
            None => {},
            Some(e) => {
                lemma_path_is_bounded(g, spec_advance(p, e), e, (fuel - 1) as nat);
            },
        }
    }
}

/// A path keeps inside the margin around the grid.
pub proof fn lemma_path_keeps_inside(g: Grid, p: Point, d: Direction, fuel: nat)
    requires
        g.wf(),
        -2 <= p.y <= g.spec_height() + 2,
        -2 <= p.x <= g.spec_width() + 2,
    ensures
        forall|k: int|
            0 <= k < spec_path_from(g, p, d, fuel).len() ==> g.within_margin(
                #[trigger] spec_path_from(g, p, d, fuel)[k],
            ),
    decreases fuel,
{
    let path = spec_path_from(g, p, d, fuel);
    if fuel >= 2 && !g.beyond_margin(p) {
        match spec_turn(g, p, d) {
            None => {},
            Some(e) => {
                let rest = spec_path_from(g, spec_advance(p, e), e, (fuel - 1) as nat);
                lemma_path_keeps_inside(g, spec_advance(p, e), e, (fuel - 1) as nat);
                assert forall|k: int| 0 <= k < path.len() implies g.within_margin(
                    #[trigger] path[k],
                ) by {
                    if k > 0 {
                        assert(path[k] == rest[k - 1]);
                    }
                }
            },
        }
    }
}

/// Every beam's path keeps inside the margin and is no longer than the step
/// limit.
pub proof fn lemma_beam_path_is_tame(g: Grid, entry: Point)
    requires
        g.wf(),
        g.within_margin(entry),
    ensures
        spec_beam_path(g, entry).len() <= spec_step_limit(g),
        forall|k: int|
            0 <= k < spec_beam_path(g, entry).len() ==> g.within_margin(
                #[trigger] spec_beam_path(g, entry)[k],
            ),
{
    lemma_path_is_bounded(g, entry, spec_initial_direction(g, entry), spec_step_limit(g));
    lemma_path_keeps_inside(g, entry, spec_initial_direction(g, entry), spec_step_limit(g));
}

/// With every pad lowered, a beam flies straight from its entry and ends on
/// the boundary point straight across the grid.
pub proof fn lemma_lowered_grid_sends_beam_across(g: Grid, entry: Point)
    requires
        g.wf(),
        all_lowered(g),
        g.within_margin(entry),
    ensures
        spec_beam_path(g, entry).len() == spec_run(g, entry, spec_initial_direction(g, entry)),
        forall|k: int|
            0 <= k < spec_beam_path(g, entry).len() ==> #[trigger] spec_beam_path(g, entry)[k]
                == spec_shift(entry, spec_initial_direction(g, entry), k),
        spec_beam_path(g, entry).last() == spec_opposite(g, entry),
{
    let d = spec_initial_direction(g, entry);
    let h = g.spec_height() + 3;
    let w = g.spec_width() + 3;
    assert(4 * h * w >= h && 4 * h * w >= w) by (nonlinear_arith)
        requires
            h >= 3,
            w >= 3,
    ;
    lemma_lowered_runs_straight(g, entry, d, spec_step_limit(g));
    let path = spec_beam_path(g, entry);
    assert(path[path.len() - 1] == spec_shift(entry, d, path.len() - 1));
}

/// A single raised pad ahead turns the beam a quarter away from it: to the
/// right where the pad is on the left, to the left where it is on the
/// right. The two headings are opposite to each other.
pub proof fn lemma_single_pad_turns_away(g: Grid, p: Point, d: Direction, fuel: nat)
    requires
        fuel >= 2,
        !g.beyond_margin(p),
    ensures
        spec_deflect(d, true, false) == Some(d.spec_right()),
        spec_deflect(d, false, true) == Some(d.spec_left()),
        d.spec_right().spec_right() == d.spec_left().spec_left(),
        d.spec_right().spec_left() == d,
        d.spec_left().spec_right() == d,
        d.spec_right().dy() == -d.spec_left().dy(),
        d.spec_right().dx() == -d.spec_left().dx(),
        d.dy() * d.spec_right().dy() + d.dx() * d.spec_right().dx() == 0,
        spec_turn(g, p, d) == Some(d.spec_right()) ==> spec_path_from(g, p, d, fuel) == seq![p]
            + spec_path_from(g, spec_advance(p, d.spec_right()), d.spec_right(), (fuel - 1) as nat),
        spec_turn(g, p, d) == Some(d.spec_left()) ==> spec_path_from(g, p, d, fuel) == seq![p]
            + spec_path_from(g, spec_advance(p, d.spec_left()), d.spec_left(), (fuel - 1) as nat),
{
}

/// Where both pads ahead are raised the beam is absorbed: the path from
/// that point is the point alone.
pub proof fn lemma_two_pads_absorb(g: Grid, p: Point, d: Direction, fuel: nat)
    requires
        fuel >= 1,
        !g.beyond_margin(p),
        g.spec_raised(spec_left_cell(p, d).y as int, spec_left_cell(p, d).x as int),
        g.spec_raised(spec_right_cell(p, d).y as int, spec_right_cell(p, d).x as int),
    ensures
        spec_path_from(g, p, d, fuel) == seq![p],
        spec_path_from(g, p, d, fuel).last() == p,
{
}

/// The two grids hold the same pad state at each of `cells`.
pub open spec fn agree_on(g1: Grid, g2: Grid, cells: Seq<Point>) -> bool {
    forall|i: int|
        0 <= i < cells.len() ==> g1.spec_raised((#[trigger] cells[i]).y as int, cells[i].x as int)
            == g2.spec_raised(cells[i].y as int, cells[i].x as int)
}

/// A path rests on the pads it was read from and on nothing else: in a grid
/// that agrees on them, the path and the pads read are the same.
pub proof fn lemma_path_rests_on_reads(g1: Grid, g2: Grid, p: Point, d: Direction, fuel: nat)
    requires
        g1.same_shape(g2),
        agree_on(g1, g2, spec_reads_from(g1, p, d, fuel)),
    ensures
        spec_path_from(g1, p, d, fuel) == spec_path_from(g2, p, d, fuel),
        spec_reads_from(g1, p, d, fuel) == spec_reads_from(g2, p, d, fuel),
    decreases fuel,
{
    if fuel <= 1 || g1.beyond_margin(p) {
    } else {
        let reads = spec_reads_from(g1, p, d, fuel);
        let l = spec_left_cell(p, d);
        let r = spec_right_cell(p, d);
        assert(reads[0] == l);
        assert(reads[1] == r);
        assert(spec_turn(g1, p, d) == spec_turn(g2, p, d));
        match spec_turn(g1, p, d) {
            None => {},
            Some(e) => {
                let q = spec_advance(p, e);
                let rest = spec_reads_from(g1, q, e, (fuel - 1) as nat);
                assert forall|i: int| 0 <= i < rest.len() implies g1.spec_raised(
                    (#[trigger] rest[i]).y as int,
                    rest[i].x as int,
                ) == g2.spec_raised(rest[i].y as int, rest[i].x as int) by {
                    assert(reads[i + 2] == rest[i]);
                }
                lemma_path_rests_on_reads(g1, g2, q, e, (fuel - 1) as nat);
            },
        }
    }
}

/// Setting a pad that a beam did not read leaves the beam's path, and the
/// pads it reads, as they were.
pub proof fn lemma_unread_pad_keeps_path(
    g1: Grid,
    g2: Grid,
    entry: Point,
    row: int,
    col: int,
    raised: bool,
)
    requires
        g2.is_update_of(g1, row, col, raised),
        forall|i: int|
            0 <= i < spec_beam_reads(g1, entry).len() ==> !((#[trigger] spec_beam_reads(
                g1,
                entry,
            )[i]).y == row && spec_beam_reads(g1, entry)[i].x == col),
    ensures
        spec_beam_path(g2, entry) == spec_beam_path(g1, entry),
        spec_beam_reads(g2, entry) == spec_beam_reads(g1, entry),
{
    let reads = spec_beam_reads(g1, entry);
    assert forall|i: int| 0 <= i < reads.len() implies g1.spec_raised(
        (#[trigger] reads[i]).y as int,
        reads[i].x as int,
    ) == g2.spec_raised(reads[i].y as int, reads[i].x as int) by {
        assert(g2.spec_raised(reads[i].y as int, reads[i].x as int) == g1.spec_raised(
            reads[i].y as int,
            reads[i].x as int,
        ));
    }
    lemma_path_rests_on_reads(
        g1,
        g2,
        entry,
        spec_initial_direction(g1, entry),
        spec_step_limit(g1),
    );
}

/// `g2` is `g1` with the state of the one pad at `c` changed.
#[verifier::opaque]
pub open spec fn differ_at(g1: Grid, g2: Grid, c: Point) -> bool {
    &&& g1.same_shape(g2)
    &&& g1.in_grid(c.y as int, c.x as int)
    &&& g1.spec_raised(c.y as int, c.x as int) != g2.spec_raised(c.y as int, c.x as int)
    &&& forall|y: int, x: int|
        !(y == c.y && x == c.x) ==> #[trigger] g1.spec_raised(y, x) == g2.spec_raised(y, x)
}

proof fn lemma_turn_at_changed_pad(g1: Grid, g2: Grid, c: Point, p: Point, d: Direction)
    requires
        g1.wf(),
        differ_at(g1, g2, c),
        -1 <= p.y <= g1.spec_height() + 1,
        -1 <= p.x <= g1.spec_width() + 1,
    ensures
        g2.same_shape(g1),
        c == spec_left_cell(p, d) || c == spec_right_cell(p, d) ==> {
            &&& spec_turn(g1, p, d) != spec_turn(g2, p, d)
            &&& 0 <= p.y <= g1.spec_height()
            &&& 0 <= p.x <= g1.spec_width()
        },
        c != spec_left_cell(p, d) && c != spec_right_cell(p, d) ==> spec_turn(g1, p, d)
            == spec_turn(g2, p, d),
{
    reveal(differ_at);
    let l = spec_left_cell(p, d);
    let r = spec_right_cell(p, d);
    assert(l != r);
    if c != l {
        assert(g1.spec_raised(l.y as int, l.x as int) == g2.spec_raised(l.y as int, l.x as int));
    }
    if c != r {
        assert(g1.spec_raised(r.y as int, r.x as int) == g2.spec_raised(r.y as int, r.x as int));
    }
}

proof fn lemma_changed_turn_changes_path(g1: Grid, g2: Grid, p: Point, d: Direction, fuel: nat)
    requires
        g1.wf(),
        g1.same_shape(g2),
        fuel >= 2,
        0 <= p.y <= g1.spec_height(),
        0 <= p.x <= g1.spec_width(),
        spec_turn(g1, p, d) != spec_turn(g2, p, d),
    ensures
        spec_path_from(g1, p, d, fuel) != spec_path_from(g2, p, d, fuel),
{
    let path1 = spec_path_from(g1, p, d, fuel);
    let path2 = spec_path_from(g2, p, d, fuel);
    match (spec_turn(g1, p, d), spec_turn(g2, p, d)) {
        (Some(e1), Some(e2)) => {
            let q1 = spec_advance(p, e1);
            let q2 = spec_advance(p, e2);
            assert(q1 != q2);
            lemma_path_starts(g1, q1, e1, (fuel - 1) as nat);
            lemma_path_starts(g2, q2, e2, (fuel - 1) as nat);
            assert(path1[1] == q1);
            assert(path2[1] == q2);
        },
        (Some(e1), None) => {
            lemma_path_starts(g1, spec_advance(p, e1), e1, (fuel - 1) as nat);
            assert(path1.len() >= 2);
            assert(path2.len() == 1);
        },
        (None, Some(e2)) => {
            lemma_path_starts(g2, spec_advance(p, e2), e2, (fuel - 1) as nat);
            assert(path2.len() >= 2);
            assert(path1.len() == 1);
        },
        (None, None) => {},
    }
}

proof fn lemma_same_head_other_tail(p: Point, a: Seq<Point>, b: Seq<Point>)
    requires
        a != b,
    ensures
        seq![p] + a != seq![p] + b,
{
    if seq![p] + a == seq![p] + b {
        assert((seq![p] + a).subrange(1, 1 + a.len() as int) =~= a);
        assert((seq![p] + b).subrange(1, 1 + b.len() as int) =~= b);
        assert((seq![p] + a).len() == 1 + a.len());
        assert((seq![p] + b).len() == 1 + b.len());
    }
}

proof fn lemma_read_pad_changes_path_from(
    g1: Grid,
    g2: Grid,
    c: Point,
    p: Point,
    d: Direction,
    fuel: nat,
)
    requires
        g1.wf(),
        differ_at(g1, g2, c),
        -2 <= p.y <= g1.spec_height() + 2,
        -2 <= p.x <= g1.spec_width() + 2,
        spec_reads_from(g1, p, d, fuel).contains(c),
    ensures
        spec_path_from(g1, p, d, fuel) != spec_path_from(g2, p, d, fuel),
    decreases fuel,
{
    let reads = spec_reads_from(g1, p, d, fuel);
    let i = choose|i: int| 0 <= i < reads.len() && reads[i] == c;
    assert(fuel >= 2 && !g1.beyond_margin(p));
    lemma_turn_at_changed_pad(g1, g2, c, p, d);
    let l = spec_left_cell(p, d);
    let r = spec_right_cell(p, d);
    if c == l || c == r {
        lemma_changed_turn_changes_path(g1, g2, p, d, fuel);
    } else {
        match spec_turn(g1, p, d) {
            None => {
                assert(reads == seq![l, r]);
                assert(reads[i] == l || reads[i] == r);
            },
            Some(e) => {
                let q = spec_advance(p, e);
                let rest = spec_reads_from(g1, q, e, (fuel - 1) as nat);
                assert(reads == seq![l, r] + rest);
                assert(i >= 2);
                assert(rest[i - 2] == c);
                lemma_read_pad_changes_path_from(g1, g2, c, q, e, (fuel - 1) as nat);
                lemma_same_head_other_tail(
                    p,
                    spec_path_from(g1, q, e, (fuel - 1) as nat),
                    spec_path_from(g2, q, e, (fuel - 1) as nat),
                );
            },
        }
    }
}

/// Setting a pad to another state is a change of that one pad.
pub proof fn lemma_update_differs(g1: Grid, g2: Grid, row: int, col: int, raised: bool)
    requires
        g1.wf(),
        g2.is_update_of(g1, row, col, raised),
        g1.in_grid(row, col),
        g1.spec_raised(row, col) != raised,
    ensures
        differ_at(g1, g2, Point { y: row as i32, x: col as i32 }),
{
    reveal(differ_at);
    assert forall|y: int, x: int| !(y == row && x == col) implies #[trigger] g1.spec_raised(y, x)
        == g2.spec_raised(y, x) by {
        assert(g2.spec_raised(y, x) == g1.spec_raised(y, x));
    }
    assert(g2.spec_raised(row, col) == raised);
}

/// Raising or lowering a pad that a beam read changes the beam's path.
pub proof fn lemma_read_pad_moves_path(
    g1: Grid,
    g2: Grid,
    entry: Point,
    row: int,
    col: int,
    raised: bool,
)
    requires
        g1.wf(),
        g1.within_margin(entry),
        g2.is_update_of(g1, row, col, raised),
        g1.in_grid(row, col),
        g1.spec_raised(row, col) != raised,
        spec_beam_reads(g1, entry).contains(Point { y: row as i32, x: col as i32 }),
    ensures
        spec_beam_path(g2, entry) != spec_beam_path(g1, entry),
{
    lemma_update_differs(g1, g2, row, col, raised);
    lemma_read_pad_changes_path(g1, g2, entry, Point { y: row as i32, x: col as i32 });
}

/// Changing a pad that a beam read changes the beam's path.
pub proof fn lemma_read_pad_changes_path(g1: Grid, g2: Grid, entry: Point, c: Point)
    requires
        g1.wf(),
        g1.within_margin(entry),
        differ_at(g1, g2, c),
        spec_beam_reads(g1, entry).contains(c),
    ensures
        spec_beam_path(g1, entry) != spec_beam_path(g2, entry),
{
    assert(g1.same_shape(g2)) by {
        reveal(differ_at);
    }
    lemma_read_pad_changes_path_from(
        g1,
        g2,
        c,
        entry,
        spec_initial_direction(g1, entry),
        spec_step_limit(g1),
    );
}

} // verus!
