//! Points, colours and the grid of pads.

use vstd::prelude::*;

verus! {

/// The largest height or width a grid may have. Coordinates stay far inside
/// `i32`, and the tracer's step limit stays inside `usize`.
pub const MAX_SIDE: usize = 16_000;

/// A point on the grid lines, or the coordinate of a cell.
#[derive(Copy, Clone, PartialEq, Eq, Structural, Debug)]
pub struct Point {
    pub y: i32,
    pub x: i32,
}

#[derive(Copy, Clone, PartialEq, Eq, Structural, Debug)]
pub enum Color {
    Red,
    Yellow,
    Green,
    Blue,
    Purple,
}

/// A beam source or a target: a boundary point and its colour.
#[derive(Copy, Clone, PartialEq, Eq, Structural, Debug)]
pub struct Placement {
    pub at: Point,
    pub color: Color,
}

impl Color {
    /// The style class that paints a shape in this colour.
    pub open spec fn spec_fill(self) -> Seq<char> {
        match self {
            Color::Red => "fill-red-500"@,
            Color::Yellow => "fill-yellow-500"@,
            Color::Green => "fill-green-500"@,
            Color::Blue => "fill-blue-500"@,
            Color::Purple => "fill-purple-500"@,
        }
    }

    pub fn fill(&self) -> (class: &'static str)
        ensures
            class@ == self.spec_fill(),
    {
        match *self {
            Color::Red => "fill-red-500",
            Color::Yellow => "fill-yellow-500",
            Color::Green => "fill-green-500",
            Color::Blue => "fill-blue-500",
            Color::Purple => "fill-purple-500",
        }
    }
}

/// The pads: `cells[row][col]` is true where the pad is raised.
pub struct Grid {
    pub cells: Vec<Vec<bool>>,
    pub width: usize,
}

impl Grid {
    pub open spec fn spec_height(self) -> int {
        self.cells@.len() as int
    }

    pub open spec fn spec_width(self) -> int {
        self.width as int
    }

    /// Every row has the grid's width, and both sides are between 1 and
    /// `MAX_SIDE`.
    pub open spec fn wf(self) -> bool {
        &&& 1 <= self.cells@.len() <= MAX_SIDE
        &&& 1 <= self.width <= MAX_SIDE
        &&& forall|r: int| 0 <= r < self.cells@.len() ==> (#[trigger] self.cells@[r])@.len() == self.width
    }

    pub open spec fn in_grid(self, y: int, x: int) -> bool {
        0 <= y < self.spec_height() && 0 <= x < self.spec_width()
    }

    /// Whether the pad at row `y`, column `x` is raised. Outside the grid
    /// there is no pad, and nothing is raised.
    pub open spec fn spec_raised(self, y: int, x: int) -> bool {
        self.in_grid(y, x) && self.cells@[y]@[x]
    }

    /// The point lies on the grid or on the ring of boundary points around it.
    pub open spec fn within_margin(self, p: Point) -> bool {
        -1 <= p.y <= self.spec_height() + 1 && -1 <= p.x <= self.spec_width() + 1
    }

    /// The point lies one step beyond the ring, where a beam has left.
    pub open spec fn beyond_margin(self, p: Point) -> bool {
        p.y == -2 || p.y == self.spec_height() + 2 || p.x == -2 || p.x == self.spec_width() + 2
    }

    /// The two grids have the same sides.
    pub open spec fn same_shape(self, other: Grid) -> bool {
        self.spec_height() == other.spec_height() && self.spec_width() == other.spec_width()
    }

    /// `self` is `before` with the pad at (`row`, `col`) set to `raised`.
    pub open spec fn is_update_of(self, before: Grid, row: int, col: int, raised: bool) -> bool {
        &&& self.same_shape(before)
        &&& forall|y: int, x: int| #[trigger]
            self.spec_raised(y, x) == (if y == row && x == col && before.in_grid(y, x) {
                raised
            } else {
                before.spec_raised(y, x)
            })
    }

    /// A grid of `h` rows and `w` columns with every pad lowered, where both
    /// sides are between 1 and `MAX_SIDE`.
    pub fn new(h: usize, w: usize) -> (made: Option<Grid>)
        ensures
            made.is_some() <==> (1 <= h <= MAX_SIDE && 1 <= w <= MAX_SIDE),
            made matches Some(g) ==> {
                &&& g.wf()
                &&& g.spec_height() == h
                &&& g.spec_width() == w
                &&& forall|y: int, x: int| !g.spec_raised(y, x)
            },
    {
        if h < 1 || h > MAX_SIDE || w < 1 || w > MAX_SIDE {
            return None;
        }
        let mut cells: Vec<Vec<bool>> = Vec::new();
        let mut r: usize = 0;
        while r < h
            invariant
                r <= h,
                cells@.len() == r,
                forall|i: int| 0 <= i < r ==> (#[trigger] cells@[i])@.len() == w,
                forall|i: int, j: int| 0 <= i < r && 0 <= j < w ==> !(#[trigger] cells@[i]@[j]),
            decreases h - r,
        {
            let mut row: Vec<bool> = Vec::new();
            let mut c: usize = 0;
            while c < w
                invariant
                    c <= w,
                    row@.len() == c,
                    forall|j: int| 0 <= j < c ==> !(#[trigger] row@[j]),
                decreases w - c,
            {
                row.push(false);
                c += 1;
            }
            cells.push(row);
            r += 1;
        }
        Some(Grid { cells, width: w })
    }

    pub fn height(&self) -> (h: usize)
        ensures
            h == self.spec_height(),
    {
        self.cells.len()
    }

    pub fn width(&self) -> (w: usize)
        ensures
            w == self.spec_width(),
    {
        self.width
    }

    /// Reads the pad at row `y`, column `x`; a coordinate outside the grid
    /// reads as lowered.
    pub fn raised(&self, y: i32, x: i32) -> (up: bool)
        requires
            self.wf(),
        ensures
            up == self.spec_raised(y as int, x as int),
    {
        if y < 0 || x < 0 {
            return false;
        }
        let row: usize = y as usize;
        let col: usize = x as usize;
        if row >= self.cells.len() || col >= self.width {
            return false;
        }
        self.cells[row][col]
    }

    /// Raises or lowers the pad at (`row`, `col`) and says whether its state
    /// changed. A coordinate outside the grid names no pad: nothing changes.
    pub fn set(&mut self, row: usize, col: usize, raised: bool) -> (changed: bool)
        requires
            old(self).wf(),
        ensures
            final(self).wf(),
            final(self).is_update_of(*old(self), row as int, col as int, raised),
            changed == (old(self).in_grid(row as int, col as int) && old(self).spec_raised(
                row as int,
                col as int,
            ) != raised),
            !changed ==> *final(self) == *old(self),
    {
        if row >= self.cells.len() || col >= self.width {
            return false;
        }
        if self.cells[row][col] == raised {
            return false;
        }
        let mut line: Vec<bool> = Vec::new();
        let mut c: usize = 0;
        while c < self.width
            invariant
                self.wf(),
                row < self.cells@.len(),
                c <= self.width,
                line@.len() == c,
                forall|j: int| 0 <= j < c ==> #[trigger] line@[j] == (if j == col {
                    raised
                } else {
                    self.cells@[row as int]@[j]
                }),
            decreases self.width - c,
        {
            let v: bool = if c == col { raised } else { self.cells[row][c] };
            line.push(v);
            c += 1;
        }
        self.cells.set(row, line);
        true
    }
}

} // verus!
