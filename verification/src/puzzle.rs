//! The puzzle: the grid, the beams and targets placed around it, and a cache
//! of each beam's path and each target's state that is renewed only where a
//! pad that it was read from has changed.

use crate::board::{Color, Grid, Placement, Point};
use crate::laws::{
    lemma_path_begins_at_entry, lemma_read_pad_moves_path, lemma_unread_pad_keeps_path,
};
use crate::tracer::{spec_beam_path, spec_beam_reads, trace_beam, Trace};
use vstd::prelude::*;

verus! {

/// The beam ends on the target and has its colour.
pub open spec fn spec_lights(g: Grid, beam: Placement, target: Placement) -> bool {
    beam.color == target.color && spec_beam_path(g, beam.at).last() == target.at
}

/// One of the first `n` beams lights the target.
pub open spec fn spec_hit_among(g: Grid, beams: Seq<Placement>, target: Placement, n: int) -> bool {
    exists|i: int| 0 <= i < n && i < beams.len() && spec_lights(g, #[trigger] beams[i], target)
}

pub open spec fn spec_hit(g: Grid, beams: Seq<Placement>, target: Placement) -> bool {
    spec_hit_among(g, beams, target, beams.len() as int)
}

pub open spec fn spec_all_hit(g: Grid, beams: Seq<Placement>, targets: Seq<Placement>) -> bool {
    forall|j: int| 0 <= j < targets.len() ==> spec_hit(g, beams, #[trigger] targets[j])
}

/// The solve time after one more look: a time once set stays; otherwise it
/// is set to `now` where every target is hit.
pub open spec fn spec_latch(before: Option<u64>, all_hit: bool, now: u64) -> Option<u64> {
    match before {
        Some(t) => Some(t),
        None => if all_hit {
            Some(now)
        } else {
            None
        },
    }
}

pub fn latch(before: Option<u64>, all_hit: bool, now: u64) -> (after: Option<u64>)
    ensures
        after == spec_latch(before, all_hit, now),
{
    match before {
        Some(t) => Some(t),
        None => if all_hit {
            Some(now)
        } else {
            None
        },
    }
}

/// A solve time that is set is never unset or changed, whatever the targets
/// show later and whatever the clock says.
pub proof fn lemma_latch_holds(t: u64, all_hit: bool, now: u64, all_hit_later: bool, later: u64)
    ensures
        spec_latch(Some(t), all_hit, now) == Some(t),
        spec_latch(spec_latch(Some(t), all_hit, now), all_hit_later, later) == Some(t),
        spec_latch(None, true, now) == Some(now),
        spec_latch(spec_latch(None, true, now), all_hit_later, later) == Some(now),
{
}

/// Whether a path ends on `target` in the colour `color`.
pub fn lights(path: &Vec<Point>, color: Color, target: Placement) -> (lit: bool)
    requires
        path@.len() >= 1,
    ensures
        lit == (color == target.color && path@.last() == target.at),
{
    let end: Point = path[path.len() - 1];
    color == target.color && end == target.at
}

pub fn contains_cell(cells: &Vec<Point>, cell: Point) -> (found: bool)
    ensures
        found == cells@.contains(cell),
{
    let mut i: usize = 0;
    while i < cells.len()
        invariant
            i <= cells@.len(),
            forall|k: int| 0 <= k < i ==> cells@[k] != cell,
        decreases cells@.len() - i,
    {
        if cells[i] == cell {
            return true;
        }
        i += 1;
    }
    false
}

pub fn copy_points(points: &Vec<Point>) -> (copy: Vec<Point>)
    ensures
        copy@ == points@,
{
    let mut copy: Vec<Point> = Vec::new();
    let mut i: usize = 0;
    while i < points.len()
        invariant
            i <= points@.len(),
            copy@ == points@.subrange(0, i as int),
        decreases points@.len() - i,
    {
        copy.push(points[i]);
        assert(copy@ =~= points@.subrange(0, i + 1));
        i += 1;
    }
    assert(points@.subrange(0, points@.len() as int) =~= points@);
    copy
}

fn blank_flags(n: usize) -> (v: Vec<bool>)
    ensures
        v@.len() == n,
        forall|i: int| 0 <= i < n ==> !v@[i],
{
    let mut v: Vec<bool> = Vec::new();
    while v.len() < n
        invariant
            v@.len() <= n,
            forall|i: int| 0 <= i < v@.len() ==> !v@[i],
        decreases n - v@.len(),
    {
        v.push(false);
    }
    v
}

fn blank_counts(n: usize) -> (v: Vec<usize>)
    ensures
        v@.len() == n,
{
    let mut v: Vec<usize> = Vec::new();
    while v.len() < n
        invariant
            v@.len() <= n,
        decreases n - v@.len(),
    {
        v.push(0);
    }
    v
}

fn blank_lists(n: usize) -> (v: Vec<Vec<Point>>)
    ensures
        v@.len() == n,
{
    let mut v: Vec<Vec<Point>> = Vec::new();
    while v.len() < n
        invariant
            v@.len() <= n,
        decreases n - v@.len(),
    {
        v.push(Vec::new());
    }
    v
}

/// Beams with the same paths in two grids light the same targets.
proof fn lemma_hit_among_same(g1: Grid, g2: Grid, beams: Seq<Placement>, t: Placement, n: int)
    requires
        forall|i: int|
            0 <= i < n && i < beams.len() ==> spec_beam_path(g1, (#[trigger] beams[i]).at)
                == spec_beam_path(g2, beams[i].at),
    ensures
        spec_hit_among(g1, beams, t, n) == spec_hit_among(g2, beams, t, n),
{
    if spec_hit_among(g1, beams, t, n) {
        let i = choose|i: int| 0 <= i < n && i < beams.len() && spec_lights(g1, #[trigger] beams[i], t);
        assert(spec_lights(g2, beams[i], t));
    }
    if spec_hit_among(g2, beams, t, n) {
        let i = choose|i: int| 0 <= i < n && i < beams.len() && spec_lights(g2, #[trigger] beams[i], t);
        assert(spec_lights(g1, beams[i], t));
    }
}

/// A change of one pad reaches exactly the beams that read the pad: the path
/// of a beam whose good slot lists the pad among its reads is another one
/// afterwards, and the path of a beam whose good slot does not is the one in
/// the slot.
pub proof fn lemma_pad_change_reaches_its_readers(
    before: Puzzle,
    after: Grid,
    i: int,
    row: int,
    col: int,
    raised: bool,
)
    requires
        before.wf(),
        0 <= i < before.beams@.len(),
        before.beam_fresh@[i],
        after.is_update_of(before.grid, row, col, raised),
        before.grid.in_grid(row, col),
        before.grid.spec_raised(row, col) != raised,
    ensures
        before.beam_reads@[i]@.contains(Point { y: row as i32, x: col as i32 }) ==> spec_beam_path(
            after,
            before.beams@[i].at,
        ) != before.beam_paths@[i]@,
        !before.beam_reads@[i]@.contains(Point { y: row as i32, x: col as i32 })
            ==> spec_beam_path(after, before.beams@[i].at) == before.beam_paths@[i]@,
{
    let entry = before.beams@[i].at;
    let cell = Point { y: row as i32, x: col as i32 };
    let reads = spec_beam_reads(before.grid, entry);
    assert(before.beam_current(i));
    if reads.contains(cell) {
        lemma_read_pad_moves_path(before.grid, after, entry, row, col, raised);
    } else {
        assert forall|k: int| 0 <= k < reads.len() implies !((#[trigger] reads[k]).y == row
            && reads[k].x == col) by {
            if reads[k].y == row && reads[k].x == col {
                assert(reads[k] == cell);
            }
        }
        lemma_unread_pad_keeps_path(before.grid, after, entry, row, col, raised);
    }
}

/// The grid with its beams and targets. Each beam has a slot that keeps its
/// last path, the cells that path was read from, and whether both are still
/// good; each target has one that keeps its last state, how many beams were
/// looked at for it, and whether that is still good. The verdict on the
/// whole puzzle has such a slot too: how many targets were looked at, up to
/// the first that was not hit, and whether that is still good.
pub struct Puzzle {
    pub grid: Grid,
    pub beams: Vec<Placement>,
    pub targets: Vec<Placement>,
    pub beam_paths: Vec<Vec<Point>>,
    pub beam_reads: Vec<Vec<Point>>,
    pub beam_fresh: Vec<bool>,
    pub target_hit: Vec<bool>,
    pub target_consulted: Vec<usize>,
    pub target_fresh: Vec<bool>,
    pub verdict_consulted: usize,
    pub verdict_fresh: bool,
    pub solved_at: Option<u64>,
}

impl Puzzle {
    /// The slot of beam `i` holds what the tracer gives on the grid as it is.
    pub open spec fn beam_current(self, i: int) -> bool {
        &&& self.beam_paths@[i]@ == spec_beam_path(self.grid, self.beams@[i].at)
        &&& self.beam_reads@[i]@ == spec_beam_reads(self.grid, self.beams@[i].at)
    }

    /// The slot of target `j` holds the target's state on the grid as it
    /// is, found from beams whose slots are all good: the beams before the
    /// first that lights it and that one, or all of them where none does.
    pub open spec fn target_current(self, j: int) -> bool {
        let n = self.target_consulted@[j] as int;
        &&& n <= self.beams@.len()
        &&& forall|i: int| 0 <= i < n ==> #[trigger] self.beam_fresh@[i]
        &&& self.target_hit@[j] == spec_hit_among(self.grid, self.beams@, self.targets@[j], n)
        &&& (self.target_hit@[j] || n == self.beams@.len())
    }

    /// The verdict was found from targets whose slots are all good, and
    /// where no solve time is set, the last of them is not hit.
    pub open spec fn verdict_current(self) -> bool {
        let n = self.verdict_consulted as int;
        &&& n <= self.targets@.len()
        &&& forall|j: int| 0 <= j < n ==> #[trigger] self.target_fresh@[j]
        &&& self.solved_at is None ==> n >= 1 && !self.target_hit@[n - 1]
    }

    pub open spec fn wf(self) -> bool {
        &&& self.grid.wf()
        &&& self.verdict_fresh ==> self.verdict_current()
        &&& self.beam_paths@.len() == self.beams@.len()
        &&& self.beam_reads@.len() == self.beams@.len()
        &&& self.beam_fresh@.len() == self.beams@.len()
        &&& self.target_hit@.len() == self.targets@.len()
        &&& self.target_consulted@.len() == self.targets@.len()
        &&& self.target_fresh@.len() == self.targets@.len()
        &&& forall|i: int|
            0 <= i < self.beams@.len() ==> self.grid.within_margin((#[trigger] self.beams@[i]).at)
        &&& forall|i: int|
            0 <= i < self.beams@.len() && #[trigger] self.beam_fresh@[i] ==> self.beam_current(i)
        &&& forall|j: int|
            0 <= j < self.targets@.len() && #[trigger] self.target_fresh@[j]
                ==> self.target_current(j)
    }

    /// The same grid, beams, targets, solve time and verdict slot.
    pub open spec fn same_setting(self, other: Puzzle) -> bool {
        &&& self.grid == other.grid
        &&& self.beams@ == other.beams@
        &&& self.targets@ == other.targets@
        &&& self.solved_at == other.solved_at
        &&& self.verdict_consulted == other.verdict_consulted
        &&& self.verdict_fresh == other.verdict_fresh
    }

    /// The same target slots.
    pub open spec fn same_target_slots(self, other: Puzzle) -> bool {
        &&& self.target_hit@ == other.target_hit@
        &&& self.target_consulted@ == other.target_consulted@
        &&& self.target_fresh@ == other.target_fresh@
    }

    /// Every beam slot that is good in `other` is the same, and good, here.
    pub open spec fn keeps_fresh_beams(self, other: Puzzle) -> bool {
        forall|k: int|
            0 <= k < other.beams@.len() && #[trigger] other.beam_fresh@[k] ==> {
                &&& self.beam_fresh@[k]
                &&& self.beam_paths@[k] == other.beam_paths@[k]
                &&& self.beam_reads@[k] == other.beam_reads@[k]
            }
    }

    pub open spec fn spec_beam_path(self, i: int) -> Seq<Point> {
        spec_beam_path(self.grid, self.beams@[i].at)
    }

    pub open spec fn spec_target_hit(self, j: int) -> bool {
        spec_hit(self.grid, self.beams@, self.targets@[j])
    }

    pub open spec fn spec_solved(self) -> bool {
        spec_all_hit(self.grid, self.beams@, self.targets@)
    }

    /// A puzzle of `h` rows and `w` columns with every pad lowered, nothing
    /// computed yet and no solve time. There is none where a side is not
    /// between 1 and `MAX_SIDE`, or where a beam enters outside the margin
    /// around the grid.
    pub fn new(h: usize, w: usize, beams: Vec<Placement>, targets: Vec<Placement>) -> (made: Option<
        Puzzle,
    >)
        ensures
            made.is_some() <==> {
                &&& 1 <= h <= crate::board::MAX_SIDE
                &&& 1 <= w <= crate::board::MAX_SIDE
                &&& forall|i: int|
                    0 <= i < beams@.len() ==> -1 <= (#[trigger] beams@[i]).at.y <= h + 1 && -1
                        <= beams@[i].at.x <= w + 1
            },
            made matches Some(p) ==> {
                &&& p.wf()
                &&& p.grid.spec_height() == h
                &&& p.grid.spec_width() == w
                &&& forall|y: int, x: int| !p.grid.spec_raised(y, x)
                &&& p.beams@ == beams@
                &&& p.targets@ == targets@
                &&& p.solved_at is None
                &&& forall|i: int| 0 <= i < beams@.len() ==> !p.beam_fresh@[i]
                &&& forall|j: int| 0 <= j < targets@.len() ==> !p.target_fresh@[j]
                &&& !p.verdict_fresh
            },
    {
        let grid = match Grid::new(h, w) {
            Some(g) => g,
            None => {
                return None;
            },
        };
        let mut i: usize = 0;
        while i < beams.len()
            invariant
                i <= beams@.len(),
                1 <= h <= crate::board::MAX_SIDE,
                1 <= w <= crate::board::MAX_SIDE,
                forall|k: int|
                    0 <= k < i ==> -1 <= (#[trigger] beams@[k]).at.y <= h + 1 && -1
                        <= beams@[k].at.x <= w + 1,
            decreases beams@.len() - i,
        {
            let at: Point = beams[i].at;
            if at.y < -1 || at.y > h as i32 + 1 || at.x < -1 || at.x > w as i32 + 1 {
                return None;
            }
            i += 1;
        }
        let n: usize = beams.len();
        let m: usize = targets.len();
        Some(
            Puzzle {
                grid,
                beams,
                targets,
                beam_paths: blank_lists(n),
                beam_reads: blank_lists(n),
                beam_fresh: blank_flags(n),
                target_hit: blank_flags(m),
                target_consulted: blank_counts(m),
                target_fresh: blank_flags(m),
                verdict_consulted: 0,
                verdict_fresh: false,
                solved_at: None,
            },
        )
    }

    pub fn beam_count(&self) -> (n: usize)
        ensures
            n == self.beams@.len(),
    {
        self.beams.len()
    }

    pub fn target_count(&self) -> (n: usize)
        ensures
            n == self.targets@.len(),
    {
        self.targets.len()
    }

    /// The state of the pad at (`row`, `col`); outside the grid, lowered.
    pub fn pad(&self, row: usize, col: usize) -> (up: bool)
        requires
            self.wf(),
        ensures
            up == self.grid.spec_raised(row as int, col as int),
    {
        if row >= self.grid.height() || col >= self.grid.width() {
            return false;
        }
        self.grid.raised(row as i32, col as i32)
    }

    /// Whether the slot of beam `i` is good: a read will not trace again.
    pub fn is_beam_fresh(&self, i: usize) -> (fresh: bool)
        requires
            self.wf(),
            i < self.beams@.len(),
        ensures
            fresh == self.beam_fresh@[i as int],
    {
        self.beam_fresh[i]
    }

    /// Whether the slot of target `j` is good.
    pub fn is_target_fresh(&self, j: usize) -> (fresh: bool)
        requires
            self.wf(),
            j < self.targets@.len(),
        ensures
            fresh == self.target_fresh@[j as int],
    {
        self.target_fresh[j]
    }

    /// Whether the verdict's slot is good: asking for the solve time will
    /// not look at the targets again.
    pub fn is_verdict_fresh(&self) -> (fresh: bool)
        ensures
            fresh == self.verdict_fresh,
    {
        self.verdict_fresh
    }

    /// The solve time as last latched, without a new look at the targets.
    pub fn solved_at(&self) -> (t: Option<u64>)
        ensures
            t == self.solved_at,
    {
        self.solved_at
    }

    /// Raises or lowers the pad at (`row`, `col`).
    ///
    /// Where that changes the pad, the slot of every beam that read it goes
    /// stale, with it the slot of every target for which such a beam was
    /// looked at, and with that the verdict's slot if such a target was
    /// looked at for it. Every other slot stays good, no slot's content is
    /// touched, and the solve time stays as it is.
    pub fn set_pad(&mut self, row: usize, col: usize, raised: bool) -> (changed: bool)
        requires
            old(self).wf(),
        ensures
            final(self).wf(),
            final(self).grid.is_update_of(old(self).grid, row as int, col as int, raised),
            changed == (old(self).grid.in_grid(row as int, col as int) && old(
                self,
            ).grid.spec_raised(row as int, col as int) != raised),
            !changed ==> *final(self) == *old(self),
            final(self).beams@ == old(self).beams@,
            final(self).targets@ == old(self).targets@,
            final(self).solved_at == old(self).solved_at,
            final(self).beam_paths@ == old(self).beam_paths@,
            final(self).beam_reads@ == old(self).beam_reads@,
            final(self).target_hit@ == old(self).target_hit@,
            final(self).target_consulted@ == old(self).target_consulted@,
            forall|i: int|
                0 <= i < old(self).beams@.len() ==> #[trigger] final(self).beam_fresh@[i] == (old(
                    self,
                ).beam_fresh@[i] && !(changed && old(self).beam_reads@[i]@.contains(
                    Point { y: row as i32, x: col as i32 },
                ))),
            forall|j: int|
                0 <= j < old(self).targets@.len() ==> #[trigger] final(self).target_fresh@[j] == (
                old(self).target_fresh@[j] && forall|i: int|
                    0 <= i < old(self).target_consulted@[j] ==> final(self).beam_fresh@[i]),
            final(self).verdict_consulted == old(self).verdict_consulted,
            final(self).verdict_fresh == (old(self).verdict_fresh && forall|j: int|
                0 <= j < old(self).verdict_consulted ==> final(self).target_fresh@[j]),
    {
        let ghost before = *self;
        let changed: bool = self.grid.set(row, col, raised);
        if !changed {
            return false;
        }
        let cell = Point { y: row as i32, x: col as i32 };
        let n: usize = self.beams.len();
        let mut lowest: usize = n;
        let mut i: usize = 0;
        while i < n
            invariant
                before.wf(),
                self.grid.wf(),
                self.grid.is_update_of(before.grid, row as int, col as int, raised),
                cell.y == row && cell.x == col,
                n == before.beams@.len(),
                i <= n,
                lowest <= n,
                self.beams@ == before.beams@,
                self.targets@ == before.targets@,
                self.solved_at == before.solved_at,
                self.beam_paths@ == before.beam_paths@,
                self.beam_reads@ == before.beam_reads@,
                self.target_hit@ == before.target_hit@,
                self.target_consulted@ == before.target_consulted@,
                self.target_fresh@ == before.target_fresh@,
                self.verdict_consulted == before.verdict_consulted,
                self.verdict_fresh == before.verdict_fresh,
                self.beam_fresh@.len() == n,
                forall|k: int| i <= k < n ==> self.beam_fresh@[k] == before.beam_fresh@[k],
                forall|k: int|
                    0 <= k < i ==> #[trigger] self.beam_fresh@[k] == (before.beam_fresh@[k]
                        && !before.beam_reads@[k]@.contains(cell)),
                forall|k: int| 0 <= k < i && #[trigger] self.beam_fresh@[k] ==> self.beam_current(k),
                forall|k: int|
                    0 <= k < i && #[trigger] self.beam_fresh@[k] ==> spec_beam_path(
                        self.grid,
                        self.beams@[k].at,
                    ) == spec_beam_path(before.grid, self.beams@[k].at),
                forall|k: int| 0 <= k < i && k < lowest ==> self.beam_fresh@[k] == before.beam_fresh@[k],
                lowest < n ==> lowest < i && !self.beam_fresh@[lowest as int]
                    && before.beam_fresh@[lowest as int],
            decreases n - i,
        {
            if self.beam_fresh[i] {
                if contains_cell(&self.beam_reads[i], cell) {
                    self.beam_fresh.set(i, false);
                    if lowest == n {
                        lowest = i;
                    }
                } else {
                    proof {
                        let reads = spec_beam_reads(before.grid, before.beams@[i as int].at);
                        assert(before.beam_fresh@[i as int]);
                        assert(before.beam_current(i as int));
                        assert forall|k: int| 0 <= k < reads.len() implies !((#[trigger] reads[k]).y
                            == row && reads[k].x == col) by {
                            if reads[k].y == row && reads[k].x == col {
                                assert(reads[k] == cell);
                            }
                        }
                        lemma_unread_pad_keeps_path(
                            before.grid,
                            self.grid,
                            before.beams@[i as int].at,
                            row as int,
                            col as int,
                            raised,
                        );
                    }
                }
            }
            i += 1;
        }
        let m: usize = self.targets.len();
        let mut lowest_target: usize = m;
        let mut j: usize = 0;
        while j < m
            invariant
                before.wf(),
                lowest_target <= m,
                self.verdict_consulted == before.verdict_consulted,
                self.verdict_fresh == before.verdict_fresh,
                forall|k: int|
                    0 <= k < j && k < lowest_target ==> self.target_fresh@[k]
                        == before.target_fresh@[k],
                lowest_target < m ==> lowest_target < j && !self.target_fresh@[lowest_target as int]
                    && before.target_fresh@[lowest_target as int],
                self.grid.wf(),
                self.grid.is_update_of(before.grid, row as int, col as int, raised),
                cell.y == row && cell.x == col,
                n == before.beams@.len(),
                m == before.targets@.len(),
                j <= m,
                lowest <= n,
                self.beams@ == before.beams@,
                self.targets@ == before.targets@,
                self.solved_at == before.solved_at,
                self.beam_paths@ == before.beam_paths@,
                self.beam_reads@ == before.beam_reads@,
                self.target_hit@ == before.target_hit@,
                self.target_consulted@ == before.target_consulted@,
                self.target_fresh@.len() == m,
                self.beam_fresh@.len() == n,
                forall|k: int|
                    0 <= k < n ==> #[trigger] self.beam_fresh@[k] == (before.beam_fresh@[k]
                        && !before.beam_reads@[k]@.contains(cell)),
                forall|k: int| 0 <= k < n && #[trigger] self.beam_fresh@[k] ==> self.beam_current(k),
                forall|k: int|
                    0 <= k < n && #[trigger] self.beam_fresh@[k] ==> spec_beam_path(
                        self.grid,
                        self.beams@[k].at,
                    ) == spec_beam_path(before.grid, self.beams@[k].at),
                forall|k: int| 0 <= k < lowest ==> self.beam_fresh@[k] == before.beam_fresh@[k],
                lowest < n ==> !self.beam_fresh@[lowest as int] && before.beam_fresh@[lowest as int],
                forall|k: int| j <= k < m ==> self.target_fresh@[k] == before.target_fresh@[k],
                forall|k: int|
                    0 <= k < j ==> #[trigger] self.target_fresh@[k] == (before.target_fresh@[k]
                        && before.target_consulted@[k] <= lowest),
                forall|k: int| 0 <= k < j && #[trigger] self.target_fresh@[k] ==> self.target_current(k),
            decreases m - j,
        {
            if self.target_fresh[j] {
                if self.target_consulted[j] > lowest {
                    self.target_fresh.set(j, false);
                    if lowest_target == m {
                        lowest_target = j;
                    }
                } else {
                    proof {
                        assert(before.target_fresh@[j as int]);
                        assert(before.target_current(j as int));
                        let c = before.target_consulted@[j as int] as int;
                        assert forall|b: int| 0 <= b < c && b < self.beams@.len() implies spec_beam_path(
                            before.grid,
                            (#[trigger] self.beams@[b]).at,
                        ) == spec_beam_path(self.grid, self.beams@[b].at) by {
                            assert(before.beam_fresh@[b]);
                            assert(self.beam_fresh@[b]);
                        }
                        lemma_hit_among_same(
                            before.grid,
                            self.grid,
                            self.beams@,
                            self.targets@[j as int],
                            self.target_consulted@[j as int] as int,
                        );
                        assert forall|b: int| 0 <= b < c implies #[trigger] self.beam_fresh@[b] by {
                            assert(before.beam_fresh@[b]);
                        }
                        assert(self.target_current(j as int));
                    }
                }
            }
            j += 1;
        }
        if self.verdict_fresh && self.verdict_consulted > lowest_target {
            self.verdict_fresh = false;
        }
        proof {
            assert(before.verdict_fresh ==> before.verdict_current());
            if self.verdict_fresh {
                assert forall|k: int| 0 <= k < self.verdict_consulted implies #[trigger] self.target_fresh@[k] by {
                    assert(before.target_fresh@[k]);
                }
            } else if before.verdict_fresh {
                assert(!self.target_fresh@[lowest_target as int]);
            }
            assert forall|k: int| 0 <= k < m implies #[trigger] self.target_fresh@[k] == (
            before.target_fresh@[k] && forall|i: int|
                0 <= i < before.target_consulted@[k] ==> self.beam_fresh@[i]) by {
                if before.target_fresh@[k] {
                    assert(before.target_current(k));
                    if before.target_consulted@[k] > lowest {
                        assert(!self.beam_fresh@[lowest as int]);
                    } else {
                        assert forall|i: int| 0 <= i < before.target_consulted@[k] implies self.beam_fresh@[i] by {
                            assert(before.beam_fresh@[i]);
                        }
                    }
                }
            }
            assert forall|k: int| 0 <= k < n implies self.grid.within_margin(
                (#[trigger] self.beams@[k]).at,
            ) by {
                assert(before.grid.within_margin(before.beams@[k].at));
            }
        }
        true
    }

    /// Makes the slot of beam `i` good, tracing the beam anew only where the
    /// slot was stale, and says whether it traced.
    pub fn refresh_beam(&mut self, i: usize) -> (traced: bool)
        requires
            old(self).wf(),
            i < old(self).beams@.len(),
        ensures
            final(self).wf(),
            traced == !old(self).beam_fresh@[i as int],
            !traced ==> *final(self) == *old(self),
            final(self).same_setting(*old(self)),
            final(self).same_target_slots(*old(self)),
            final(self).keeps_fresh_beams(*old(self)),
            final(self).beam_fresh@ == old(self).beam_fresh@.update(i as int, true),
            final(self).beam_paths@[i as int]@ == final(self).spec_beam_path(i as int),
            final(self).beam_paths@[i as int]@.len() >= 1,
    {
        proof {
            lemma_path_begins_at_entry(self.grid, self.beams@[i as int].at);
        }
        if self.beam_fresh[i] {
            assert(self.beam_fresh@ =~= self.beam_fresh@.update(i as int, true));
            return false;
        }
        let ghost before = *self;
        let t: Trace = trace_beam(&self.grid, self.beams[i].at);
        self.beam_paths.set(i, t.path);
        self.beam_reads.set(i, t.reads);
        self.beam_fresh.set(i, true);
        proof {
            assert forall|j: int|
                0 <= j < self.targets@.len() && #[trigger] self.target_fresh@[j] implies self.target_current(
                j,
            ) by {
                assert(before.target_current(j));
            }
            assert forall|k: int|
                0 <= k < self.beams@.len() && #[trigger] self.beam_fresh@[k] implies self.beam_current(
                k,
            ) by {
                if k != i {
                    assert(before.beam_current(k));
                }
            }
        }
        true
    }

    /// The path of beam `i` on the grid as it is, from the beam's slot,
    /// which is made good first. A second read with no pad changed between
    /// leaves the puzzle as it is and gives the same path.
    pub fn beam_path(&mut self, i: usize) -> (path: Vec<Point>)
        requires
            old(self).wf(),
            i < old(self).beams@.len(),
        ensures
            final(self).wf(),
            path@ == old(self).spec_beam_path(i as int),
            path@ == final(self).beam_paths@[i as int]@,
            path@.len() >= 1,
            path@[0] == old(self).beams@[i as int].at,
            old(self).beam_fresh@[i as int] ==> *final(self) == *old(self),
            final(self).same_setting(*old(self)),
            final(self).same_target_slots(*old(self)),
            final(self).keeps_fresh_beams(*old(self)),
            final(self).beam_fresh@ == old(self).beam_fresh@.update(i as int, true),
    {
        proof {
            lemma_path_begins_at_entry(self.grid, self.beams@[i as int].at);
        }
        let _ = self.refresh_beam(i);
        copy_points(&self.beam_paths[i])
    }

    /// Whether target `j` is hit on the grid as it is: whether a beam of its
    /// colour ends on it. The answer comes from the target's slot where that
    /// is good; otherwise the beams are read in order up to the first that
    /// lights the target, and the slot is made good.
    pub fn target_hit(&mut self, j: usize) -> (hit: bool)
        requires
            old(self).wf(),
            j < old(self).targets@.len(),
        ensures
            final(self).wf(),
            hit == old(self).spec_target_hit(j as int),
            hit == final(self).target_hit@[j as int],
            old(self).target_fresh@[j as int] ==> *final(self) == *old(self),
            final(self).same_setting(*old(self)),
            final(self).keeps_fresh_beams(*old(self)),
            final(self).target_fresh@ == old(self).target_fresh@.update(j as int, true),
            forall|k: int|
                0 <= k < old(self).targets@.len() && k != j ==> {
                    &&& final(self).target_hit@[k] == old(self).target_hit@[k]
                    &&& final(self).target_consulted@[k] == old(self).target_consulted@[k]
                },
    {
        if self.target_fresh[j] {
            assert(self.target_current(j as int));
            assert(self.target_fresh@ =~= self.target_fresh@.update(j as int, true));
            return self.target_hit[j];
        }
        let ghost before = *self;
        let target: Placement = self.targets[j];
        let n: usize = self.beams.len();
        let mut i: usize = 0;
        let mut found: bool = false;
        while i < n && !found
            invariant
                self.wf(),
                before.wf(),
                j < before.targets@.len(),
                target == before.targets@[j as int],
                n == before.beams@.len(),
                i <= n,
                self.same_setting(before),
                self.same_target_slots(before),
                self.keeps_fresh_beams(before),
                forall|k: int| 0 <= k < i ==> #[trigger] self.beam_fresh@[k],
                !found ==> !spec_hit_among(self.grid, self.beams@, target, i as int),
                found ==> spec_hit_among(self.grid, self.beams@, target, i as int),
            decreases n - i + (if found { 0int } else { 1int }),
        {
            let ghost mid = *self;
            let _ = self.refresh_beam(i);
            let lit: bool = lights(&self.beam_paths[i], self.beams[i].color, target);
            proof {
                assert(lit == spec_lights(self.grid, self.beams@[i as int], target));
                assert forall|k: int|
                    0 <= k < before.beams@.len() && #[trigger] before.beam_fresh@[k] implies self.beam_fresh@[k]
                    && self.beam_paths@[k] == before.beam_paths@[k] && self.beam_reads@[k]
                    == before.beam_reads@[k] by {
                    assert(mid.beam_fresh@[k]);
                }
            }
            if lit {
                found = true;
            }
            i += 1;
        }
        self.target_hit.set(j, found);
        self.target_consulted.set(j, i);
        self.target_fresh.set(j, true);
        proof {
            assert forall|k: int|
                0 <= k < self.targets@.len() && #[trigger] self.target_fresh@[k] implies self.target_current(
                k,
            ) by {
                if k != j {
                    assert(before.target_fresh@[k]);
                    assert(before.target_current(k));
                    assert forall|b: int| 0 <= b < self.target_consulted@[k] implies #[trigger] self.beam_fresh@[b] by {
                        assert(before.beam_fresh@[b]);
                    }
                }
            }
            assert forall|k: int|
                0 <= k < self.beams@.len() && #[trigger] self.beam_fresh@[k] implies self.beam_current(
                k,
            ) by {}
        }
        found
    }

    /// The solve time: the one already latched, if there is one; otherwise
    /// `now` if every target is hit on the grid as it is, and none if not.
    /// What is returned is latched. The targets are looked at only where no
    /// time is latched and the verdict's slot is stale.
    pub fn solve_time(&mut self, now: u64) -> (t: Option<u64>)
        requires
            old(self).wf(),
        ensures
            final(self).wf(),
            t == spec_latch(old(self).solved_at, old(self).spec_solved(), now),
            final(self).solved_at == t,
            old(self).solved_at is Some || old(self).verdict_fresh ==> *final(self) == *old(self),
            final(self).verdict_fresh || final(self).solved_at is Some,
            final(self).grid == old(self).grid,
            final(self).beams@ == old(self).beams@,
            final(self).targets@ == old(self).targets@,
            final(self).keeps_fresh_beams(*old(self)),
    {
        if let Some(t) = self.solved_at {
            return Some(t);
        }
        if self.verdict_fresh {
            proof {
                let last = self.verdict_consulted - 1;
                assert(self.verdict_current());
                assert(self.target_fresh@[last]);
                assert(self.target_current(last));
                assert(!spec_hit(self.grid, self.beams@, self.targets@[last]));
            }
            return None;
        }
        let ghost before = *self;
        let m: usize = self.targets.len();
        let mut j: usize = 0;
        let mut all: bool = true;
        while j < m && all
            invariant
                self.wf(),
                before.wf(),
                m == before.targets@.len(),
                j <= m,
                self.same_setting(before),
                self.keeps_fresh_beams(before),
                forall|k: int| 0 <= k < j ==> #[trigger] self.target_fresh@[k],
                all ==> forall|k: int|
                    0 <= k < j ==> spec_hit(self.grid, self.beams@, #[trigger] self.targets@[k]),
                !all ==> !spec_all_hit(self.grid, self.beams@, self.targets@),
                !all ==> j >= 1 && !self.target_hit@[j - 1],
            decreases m - j + (if all { 1int } else { 0int }),
        {
            let ghost mid = *self;
            let hit: bool = self.target_hit(j);
            proof {
                assert forall|k: int|
                    0 <= k < before.beams@.len() && #[trigger] before.beam_fresh@[k] implies self.beam_fresh@[k]
                    && self.beam_paths@[k] == before.beam_paths@[k] && self.beam_reads@[k]
                    == before.beam_reads@[k] by {
                    assert(mid.beam_fresh@[k]);
                }
            }
            if !hit {
                all = false;
                assert(!spec_hit(self.grid, self.beams@, self.targets@[j as int]));
            }
            j += 1;
        }
        let t: Option<u64> = latch(None, all, now);
        self.solved_at = t;
        self.verdict_consulted = j;
        self.verdict_fresh = true;
        proof {
            assert forall|k: int|
                0 <= k < self.targets@.len() && #[trigger] self.target_fresh@[k] implies self.target_current(
                k,
            ) by {}
            assert forall|k: int|
                0 <= k < self.beams@.len() && #[trigger] self.beam_fresh@[k] implies self.beam_current(
                k,
            ) by {}
        }
        t
    }
}

} // verus!
