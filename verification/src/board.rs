//! The fixed 3x3 grid of optional marks, and its win and draw predicates.

use vstd::prelude::*;

use crate::game::GameError;

verus! {

/// The side of the square grid.
pub const BOARD_SIZE: usize = 3;

/// The largest valid coordinate.
pub const MAX_INDEX: usize = 2;

/// How many winning lines the grid has: three columns, three rows and the
/// two diagonals.
pub const LINE_COUNT: usize = 8;

/// One of the two players' symbols.
#[derive(Clone, Copy, PartialEq, Eq, Structural, Debug)]
pub enum Shape {
    X,
    O,
}

impl Shape {
    /// The mark that moves after `self`.
    pub open spec fn spec_other(self) -> Shape {
        match self {
            Shape::X => Shape::O,
            Shape::O => Shape::X,
        }
    }

    /// The mark that moves after `self`.
    pub fn other(self) -> (r: Shape)
        ensures
            r == self.spec_other(),
    {
        match self {
            Shape::X => Shape::O,
            Shape::O => Shape::X,
        }
    }
}

impl Default for Shape {
    /// The mark that moves first.
    fn default() -> (r: Shape)
        ensures
            r == Shape::X,
    {
        Shape::X
    }
}

/// A validated (column, row) pair, each coordinate within `[0, MAX_INDEX]`
/// once built through [`BoardIndex::new`].
#[derive(Clone, Copy, PartialEq, Eq, Structural, Debug)]
pub struct BoardIndex(pub usize, pub usize);

impl BoardIndex {
    /// True when the pair addresses a cell of the grid.
    pub open spec fn in_bounds(self) -> bool {
        self.0 < 3 && self.1 < 3
    }

    /// Builds an index, rejecting out-of-range coordinates.
    pub fn new(x: usize, y: usize) -> (r: Result<BoardIndex, GameError>)
        ensures
            x <= 2 && y <= 2 ==> r == Ok::<BoardIndex, GameError>(BoardIndex(x, y)),
            !(x <= 2 && y <= 2) ==> r == Err::<BoardIndex, GameError>(GameError::OutOfBounds),
    {
        if x > MAX_INDEX || y > MAX_INDEX {
            return Err(GameError::OutOfBounds);
        }
        Ok(BoardIndex(x, y))
    }
}

/// The cell of winning line `k` at position `j` along the line, as an
/// (x, y) pair. Lines are enumerated in a fixed order: the three columns,
/// the middle, top and bottom rows, then the two diagonals.
pub open spec fn line_index(k: int, j: int) -> (int, int) {
    if k < 3 {
        (k, j)
    } else if k == 3 {
        (j, 1)
    } else if k == 4 {
        (j, 0)
    } else if k == 5 {
        (j, 2)
    } else if k == 6 {
        (j, j)
    } else {
        (2 - j, j)
    }
}

/// The cell of winning line `k` at position `j` along the line.
pub fn line_cell(k: usize, j: usize) -> (r: BoardIndex)
    requires
        k < 8,
        j < 3,
    ensures
        (r.0 as int, r.1 as int) == line_index(k as int, j as int),
        r.in_bounds(),
{
    if k < 3 {
        BoardIndex(k, j)
    } else if k == 3 {
        BoardIndex(j, 1)
    } else if k == 4 {
        BoardIndex(j, 0)
    } else if k == 5 {
        BoardIndex(j, 2)
    } else if k == 6 {
        BoardIndex(j, j)
    } else {
        BoardIndex(2 - j, j)
    }
}

/// The grid: nine cells in row-major order, each either unset or holding
/// the mark that was placed there. A cell, once set, is only ever cleared
/// by replacing the whole board.
pub struct Board(pub Vec<Option<Shape>>);

impl Board {
    /// The board holds exactly one slot per cell.
    pub open spec fn wf(self) -> bool {
        self.0@.len() == 9
    }

    /// The content of the cell at column `x`, row `y`.
    pub open spec fn cell(self, x: int, y: int) -> Option<Shape>
        recommends
            self.wf(),
            0 <= x < 3,
            0 <= y < 3,
    {
        self.0@[y * 3 + x]
    }

    /// Every cell is unset.
    pub open spec fn is_empty_board(self) -> bool {
        forall|x: int, y: int|
            0 <= x < 3 && 0 <= y < 3 ==> self.cell(x, y) is None
    }

    /// Every cell of winning line `k` holds mark `m`.
    pub open spec fn line_holds(self, k: int, m: Shape) -> bool {
        forall|j: int|
            0 <= j < 3 ==> self.cell((#[trigger] line_index(k, j)).0, line_index(k, j).1)
                == Some(m)
    }

    /// Some enumerated winning line holds mark `m` throughout.
    pub open spec fn winning(self, m: Shape) -> bool {
        exists|k: int| 0 <= k < 8 && self.line_holds(k, m)
    }

    /// Every cell is set.
    pub open spec fn full(self) -> bool {
        forall|x: int, y: int|
            0 <= x < 3 && 0 <= y < 3 ==> self.cell(x, y) is Some
    }

    /// A grid with all cells unset.
    pub fn empty() -> (r: Board)
        ensures
            r.wf(),
            r.is_empty_board(),
    {
        let mut cells: Vec<Option<Shape>> = Vec::new();
        let mut i: usize = 0;
        while i < BOARD_SIZE * BOARD_SIZE
            invariant
                i <= 9,
                cells@.len() == i,
                forall|j: int| 0 <= j < i ==> cells@[j] is None,
            decreases 9 - i,
        {
            cells.push(None);
            i = i + 1;
        }
        Board(cells)
    }

    /// Pure lookup of one cell.
    pub fn get_ref(&self, index: &BoardIndex) -> (r: Option<Shape>)
        requires
            self.wf(),
            index.in_bounds(),
        ensures
            r == self.cell(index.0 as int, index.1 as int),
    {
        self.0[index.1 * 3 + index.0]
    }

    /// Unconditional overwrite of one cell; the caller is expected to have
    /// checked occupancy already.
    pub fn set_cell(&mut self, index: &BoardIndex, shape: Shape)
        requires
            old(self).wf(),
            index.in_bounds(),
        ensures
            final(self).wf(),
            final(self).cell(index.0 as int, index.1 as int) == Some(shape),
            forall|x: int, y: int|
                0 <= x < 3 && 0 <= y < 3 && !(x == index.0 as int && y == index.1 as int)
                    ==> final(self).cell(x, y) == old(self).cell(x, y),
    {
        self.0[index.1 * 3 + index.0] = Some(shape);
    }

    /// The content of the cell addressed by `condition[j]`.
    pub open spec fn cell_at(self, condition: [BoardIndex; 3], j: int) -> Option<Shape>
        recommends
            0 <= j < 3,
    {
        self.cell(condition@[j].0 as int, condition@[j].1 as int)
    }

    /// The mark held throughout the given line, if the line is complete.
    pub fn check_win_condition(&self, condition: &[BoardIndex; 3]) -> (r: Option<Shape>)
        requires
            self.wf(),
            forall|j: int| 0 <= j < 3 ==> (#[trigger] condition@[j]).in_bounds(),
        ensures
            r matches Some(m) ==> self.cell_at(*condition, 0) == Some(m)
                && self.cell_at(*condition, 1) == Some(m) && self.cell_at(*condition, 2)
                == Some(m),
            r is None ==> !(self.cell_at(*condition, 0) is Some && self.cell_at(*condition, 0)
                == self.cell_at(*condition, 1) && self.cell_at(*condition, 1)
                == self.cell_at(*condition, 2)),
    {
        let c0 = self.get_ref(&condition[0]);
        let c1 = self.get_ref(&condition[1]);
        let c2 = self.get_ref(&condition[2]);
        match (c0, c1, c2) {
            (Some(a), Some(b), Some(c)) => {
                if a == b && b == c {
                    Some(a)
                } else {
                    None
                }
            },
            _ => None,
        }
    }

    /// The mark of the first enumerated line held throughout by a single
    /// mark, if any line is.
    pub fn check_winner(&self) -> (r: Option<Shape>)
        requires
            self.wf(),
        ensures
            r matches Some(m) ==> self.winning(m),
            r is None ==> forall|m: Shape| !self.winning(m),
    {
        let mut k: usize = 0;
        while k < LINE_COUNT
            invariant
                self.wf(),
                k <= 8,
                forall|k2: int, m: Shape| 0 <= k2 < k ==> !self.line_holds(k2, m),
            decreases 8 - k,
        {
            let condition = [line_cell(k, 0), line_cell(k, 1), line_cell(k, 2)];
            let r = self.check_win_condition(&condition);
            if let Some(m) = r {
                assert forall|j: int| 0 <= j < 3 implies self.cell(
                    (#[trigger] line_index(k as int, j)).0,
                    line_index(k as int, j).1,
                ) == Some(m) by {
                    assert(self.cell_at(condition, j) == Some(m));
                }
                assert(self.line_holds(k as int, m));
                return Some(m);
            }
            assert forall|m: Shape| !self.line_holds(k as int, m) by {
                if self.line_holds(k as int, m) {
                    assert(self.cell(line_index(k as int, 0).0, line_index(k as int, 0).1)
                        == Some(m));
                    assert(self.cell(line_index(k as int, 1).0, line_index(k as int, 1).1)
                        == Some(m));
                    assert(self.cell(line_index(k as int, 2).0, line_index(k as int, 2).1)
                        == Some(m));
                    assert(self.cell_at(condition, 0) is Some);
                }
            }
            k = k + 1;
        }
        None
    }

    /// True iff every cell is set. By calling convention this is consulted
    /// only after `check_winner` found no winner.
    pub fn check_draw(&self) -> (r: bool)
        requires
            self.wf(),
        ensures
            r == self.full(),
    {
        let mut i: usize = 0;
        while i < BOARD_SIZE * BOARD_SIZE
            invariant
                self.wf(),
                i <= 9,
                forall|j: int| 0 <= j < i ==> self.0@[j] is Some,
            decreases 9 - i,
        {
            if self.0[i].is_none() {
                assert(self.cell(i as int % 3, i as int / 3) is None);
                return false;
            }
            i = i + 1;
        }
        assert forall|x: int, y: int| 0 <= x < 3 && 0 <= y < 3 implies self.cell(x, y) is Some by {
            assert(0 <= y * 3 + x < 9);
        }
        true
    }
}

impl Default for Board {
    /// Same as [`Board::empty`].
    fn default() -> (r: Board)
        ensures
            r.wf(),
            r.is_empty_board(),
    {
        Board::empty()
    }
}

} // verus!
