//! The mathematical model of a Wireworld grid.
//!
//! A [`Grid`] is a ghost value: a width, a height and a row-major sequence of
//! cells. Every operation of the engine is specified as a function on grids,
//! and the laws of the automaton are proved here, once, over the model.

use vstd::prelude::*;
use vstd::arithmetic::div_mod::lemma_fundamental_div_mod;
use vstd::arithmetic::div_mod::lemma_fundamental_div_mod_converse;
use vstd::arithmetic::div_mod::lemma_mod_bound;
use crate::cell::Cell;

verus! {

/// A rectangular, toroidally wrapped grid of cells in row-major order.
pub struct Grid {
    pub width: nat,
    pub height: nat,
    pub cells: Seq<Cell>,
}

impl Grid {
    /// Both dimensions are positive and there is exactly one cell per
    /// coordinate.
    pub open spec fn wf(self) -> bool {
        &&& self.width > 0
        &&& self.height > 0
        &&& self.cells.len() == self.width * self.height
    }

    /// The grid of the given dimensions in which every cell is empty.
    pub open spec fn empty(width: nat, height: nat) -> Grid {
        Grid { width, height, cells: Seq::new(width * height, |k: int| Cell::Empty) }
    }

    /// Whether `(row, col)` is a coordinate of the grid.
    pub open spec fn contains(self, row: int, col: int) -> bool {
        0 <= row < self.height && 0 <= col < self.width
    }

    /// The position of `(row, col)` in the row-major cell sequence.
    pub open spec fn index(self, row: int, col: int) -> int {
        row * self.width + col
    }

    /// The cell at `(row, col)`.
    pub open spec fn at(self, row: int, col: int) -> Cell
        recommends
            self.contains(row, col),
    {
        self.cells[self.index(row, col)]
    }

    /// The cell that `(row, col)` names on the torus: coordinates outside the
    /// grid wrap around to the opposite edge.
    pub open spec fn wrapped(self, row: int, col: int) -> Cell {
        self.at(row % (self.height as int), col % (self.width as int))
    }

    /// 1 if the cell that `(row, col)` names on the torus is an electron
    /// head, else 0.
    pub open spec fn head(self, row: int, col: int) -> nat {
        if self.wrapped(row, col) == Cell::ElectronHead {
            1
        } else {
            0
        }
    }

    /// The number of electron heads among the eight Moore neighbours of
    /// `(row, col)` on the torus. On a grid with a single row or column a
    /// cell is its own neighbour along that axis and is counted as such.
    pub open spec fn heads_around(self, row: int, col: int) -> nat {
        self.head(row - 1, col - 1) + self.head(row - 1, col) + self.head(row - 1, col + 1)
            + self.head(row, col - 1) + self.head(row, col + 1)
            + self.head(row + 1, col - 1) + self.head(row + 1, col) + self.head(row + 1, col + 1)
    }

    /// The successor of the cell at position `k` of the cell sequence.
    pub open spec fn next_at(self, k: int) -> Cell {
        self.cells[k].spec_next(
            self.heads_around(k / (self.width as int), k % (self.width as int)),
        )
    }

    /// The next generation: every cell advances at once, each reading only
    /// the cells of this grid.
    pub open spec fn step(self) -> Grid {
        Grid {
            width: self.width,
            height: self.height,
            cells: Seq::new(self.cells.len(), |k: int| self.next_at(k)),
        }
    }

    /// The grid after `n` generations.
    pub open spec fn steps(self, n: nat) -> Grid
        decreases n,
    {
        if n == 0 {
            self
        } else {
            self.steps((n - 1) as nat).step()
        }
    }

    /// The grid with `cell` written at `(row, col)`.
    pub open spec fn write(self, row: int, col: int, cell: Cell) -> Grid
        recommends
            self.contains(row, col),
    {
        Grid {
            width: self.width,
            height: self.height,
            cells: self.cells.update(self.index(row, col), cell),
        }
    }

    /// The grid after an editor's toggle at `(row, col)`.
    pub open spec fn toggle(self, row: int, col: int) -> Grid
        recommends
            self.contains(row, col),
    {
        self.write(row, col, self.at(row, col).spec_toggled())
    }

    /// The grid after an electron is injected at `(row, col)`.
    pub open spec fn ignite(self, row: int, col: int) -> Grid
        recommends
            self.contains(row, col),
    {
        self.write(row, col, self.at(row, col).spec_ignited())
    }

    /// Whether every entry of `writes` names a coordinate of the grid.
    pub open spec fn accepts(self, writes: Seq<(u32, u32, Cell)>) -> bool {
        forall|i: int|
            0 <= i < writes.len() ==> self.contains(
                (#[trigger] writes[i]).0 as int,
                writes[i].1 as int,
            )
    }

    /// The grid after the entries of `writes` are written in order, so that
    /// of two entries for one coordinate the later one stands.
    pub open spec fn write_all(self, writes: Seq<(u32, u32, Cell)>) -> Grid
        decreases writes.len(),
    {
        if writes.len() == 0 {
            self
        } else {
            let w = writes.last();
            self.write_all(writes.drop_last()).write(w.0 as int, w.1 as int, w.2)
        }
    }

    /// The cell sequence in its byte encoding.
    pub open spec fn bytes(self) -> Seq<u8> {
        Seq::new(self.cells.len(), |k: int| self.cells[k].spec_byte())
    }

    /// A coordinate of a well-formed grid has a position inside the cell
    /// sequence, and the position determines the coordinate.
    pub proof fn lemma_index(self, row: int, col: int)
        requires
            self.wf(),
            self.contains(row, col),
        ensures
            0 <= self.index(row, col) < self.cells.len(),
            self.index(row, col) / (self.width as int) == row,
            self.index(row, col) % (self.width as int) == col,
    {
        let w = self.width as int;
        let h = self.height as int;
        assert(row * w + col < w * h) by (nonlinear_arith)
            requires
                0 <= row < h,
                0 <= col < w,
        ;
        assert(0 <= row * w + col) by (nonlinear_arith)
            requires
                0 <= row,
                0 <= col,
                0 < w,
        ;
        lemma_fundamental_div_mod_converse(row * w + col, w, row, col);
    }

    /// Every position inside the cell sequence of a well-formed grid is the
    /// position of exactly one coordinate: its quotient and remainder by the
    /// width.
    pub proof fn lemma_position(self, k: int)
        requires
            self.wf(),
            0 <= k < self.cells.len(),
        ensures
            self.contains(k / (self.width as int), k % (self.width as int)),
            self.index(k / (self.width as int), k % (self.width as int)) == k,
    {
        let w = self.width as int;
        let h = self.height as int;
        lemma_fundamental_div_mod(k, w);
        lemma_mod_bound(k, w);
        let q = k / w;
        let r = k % w;
        assert(w * q == q * w) by (nonlinear_arith);
        assert(0 <= q < h) by (nonlinear_arith)
            requires
                0 <= k < w * h,
                k == q * w + r,
                0 <= r < w,
        ;
    }

    /// The empty grid is well formed and holds `Empty` at every coordinate.
    pub proof fn lemma_empty(width: nat, height: nat, row: int, col: int)
        requires
            width > 0,
            height > 0,
            Grid::empty(width, height).contains(row, col),
        ensures
            Grid::empty(width, height).wf(),
            Grid::empty(width, height).at(row, col) == Cell::Empty,
    {
        Grid::empty(width, height).lemma_index(row, col);
    }

    /// Two well-formed grids of the same dimensions that hold the same cell
    /// at every coordinate are the same grid, and so are their successors:
    /// the next generation is a function of the cells alone.
    pub proof fn lemma_step_deterministic(self, other: Grid)
        requires
            self.wf(),
            other.wf(),
            self.width == other.width,
            self.height == other.height,
            forall|row: int, col: int|
                self.contains(row, col) ==> self.at(row, col) == other.at(row, col),
        ensures
            self == other,
            self.step() == other.step(),
    {
        assert forall|k: int| 0 <= k < self.cells.len() implies self.cells[k] == other.cells[k] by {
            self.lemma_position(k);
            let row = k / (self.width as int);
            let col = k % (self.width as int);
            assert(self.at(row, col) == other.at(row, col));
        }
        assert(self.cells =~= other.cells);
    }

    /// A cell has at most eight electron heads around it.
    pub proof fn lemma_heads_around_bound(self, row: int, col: int)
        ensures
            self.heads_around(row, col) <= 8,
    {
    }

    /// One generation keeps the dimensions, and every cell advances by the
    /// transition rule applied to its own state and the number of electron
    /// heads around it in the grid before the step.
    pub proof fn lemma_step_at(self, row: int, col: int)
        requires
            self.wf(),
            self.contains(row, col),
        ensures
            self.step().wf(),
            self.step().width == self.width,
            self.step().height == self.height,
            self.step().at(row, col) == self.at(row, col).spec_next(self.heads_around(row, col)),
    {
        self.lemma_index(row, col);
    }

    /// An electron head is an electron tail one generation later, whatever
    /// surrounds it.
    pub proof fn lemma_head_becomes_tail(self, row: int, col: int)
        requires
            self.wf(),
            self.contains(row, col),
            self.at(row, col) == Cell::ElectronHead,
        ensures
            self.step().at(row, col) == Cell::ElectronTail,
    {
        self.lemma_step_at(row, col);
    }

    /// An electron tail is a conductor one generation later, whatever
    /// surrounds it.
    pub proof fn lemma_tail_becomes_conductor(self, row: int, col: int)
        requires
            self.wf(),
            self.contains(row, col),
            self.at(row, col) == Cell::ElectronTail,
        ensures
            self.step().at(row, col) == Cell::Conductor,
    {
        self.lemma_step_at(row, col);
    }

    /// A conductor is an electron head one generation later if and only if
    /// one or two of its eight neighbours on the torus are electron heads;
    /// otherwise it is still a conductor.
    pub proof fn lemma_conductor_ignites(self, row: int, col: int)
        requires
            self.wf(),
            self.contains(row, col),
            self.at(row, col) == Cell::Conductor,
        ensures
            self.step().at(row, col) == Cell::ElectronHead <==> (self.heads_around(row, col) == 1
                || self.heads_around(row, col) == 2),
            self.step().at(row, col) == Cell::Conductor <==> (self.heads_around(row, col) == 0
                || self.heads_around(row, col) >= 3),
    {
        self.lemma_step_at(row, col);
    }

    /// An empty cell is empty after any number of generations.
    pub proof fn lemma_empty_stays_empty(self, n: nat, row: int, col: int)
        requires
            self.wf(),
            self.contains(row, col),
            self.at(row, col) == Cell::Empty,
        ensures
            self.steps(n).wf(),
            self.steps(n).width == self.width,
            self.steps(n).height == self.height,
            self.steps(n).at(row, col) == Cell::Empty,
        decreases n,
    {
        if n > 0 {
            self.lemma_empty_stays_empty((n - 1) as nat, row, col);
            self.steps((n - 1) as nat).lemma_step_at(row, col);
        }
    }

    /// Writing a cell keeps the dimensions, puts the cell at its coordinate
    /// and leaves every other coordinate as it was.
    pub proof fn lemma_write_at(self, row: int, col: int, cell: Cell, r: int, c: int)
        requires
            self.wf(),
            self.contains(row, col),
            self.contains(r, c),
        ensures
            self.write(row, col, cell).wf(),
            self.write(row, col, cell).width == self.width,
            self.write(row, col, cell).height == self.height,
            self.write(row, col, cell).at(r, c) == (if r == row && c == col {
                cell
            } else {
                self.at(r, c)
            }),
    {
        self.lemma_index(row, col);
        self.lemma_index(r, c);
    }

    /// A toggle on an electron head or an electron tail changes nothing.
    pub proof fn lemma_toggle_keeps_electrons(self, row: int, col: int)
        requires
            self.wf(),
            self.contains(row, col),
            self.at(row, col) == Cell::ElectronHead || self.at(row, col) == Cell::ElectronTail,
        ensures
            self.toggle(row, col) == self,
    {
        self.lemma_index(row, col);
        assert(self.toggle(row, col).cells =~= self.cells);
    }

    /// The cell that the last entry of `writes` for `(row, col)` carries, if
    /// there is such an entry.
    pub open spec fn last_write(writes: Seq<(u32, u32, Cell)>, row: int, col: int) -> Option<Cell>
        decreases writes.len(),
    {
        if writes.len() == 0 {
            None
        } else if writes.last().0 == row && writes.last().1 == col {
            Some(writes.last().2)
        } else {
            Grid::last_write(writes.drop_last(), row, col)
        }
    }

    /// A batch of writes keeps the dimensions. Afterwards a coordinate holds
    /// the cell of the last entry that names it, or, where no entry names
    /// it, the cell it held before.
    pub proof fn lemma_write_all_at(self, writes: Seq<(u32, u32, Cell)>, row: int, col: int)
        requires
            self.wf(),
            self.accepts(writes),
            self.contains(row, col),
        ensures
            self.write_all(writes).wf(),
            self.write_all(writes).width == self.width,
            self.write_all(writes).height == self.height,
            self.write_all(writes).at(row, col) == (match Grid::last_write(writes, row, col) {
                Some(cell) => cell,
                None => self.at(row, col),
            }),
        decreases writes.len(),
    {
        if writes.len() > 0 {
            let w = writes.last();
            let rest = writes.drop_last();
            assert forall|i: int| 0 <= i < rest.len() implies self.contains(
                (#[trigger] rest[i]).0 as int,
                rest[i].1 as int,
            ) by {
                assert(rest[i] == writes[i]);
            }
            self.lemma_write_all_at(rest, row, col);
            self.write_all(rest).lemma_write_at(w.0 as int, w.1 as int, w.2, row, col);
        }
    }

    /// A batch of writes followed by one generation forgets what went
    /// before: two well-formed grids of the same dimensions that agree at
    /// every coordinate that no entry of `writes` names are the same grid
    /// after the writes, and the same grid one generation later.
    pub proof fn lemma_write_all_forgets(self, other: Grid, writes: Seq<(u32, u32, Cell)>)
        requires
            self.wf(),
            other.wf(),
            self.width == other.width,
            self.height == other.height,
            self.accepts(writes),
            forall|row: int, col: int|
                self.contains(row, col) && Grid::last_write(writes, row, col).is_none()
                    ==> self.at(row, col) == other.at(row, col),
        ensures
            self.write_all(writes) == other.write_all(writes),
            self.write_all(writes).step() == other.write_all(writes).step(),
    {
        let a = self.write_all(writes);
        let b = other.write_all(writes);
        assert(other.accepts(writes));
        self.lemma_write_all_at(writes, 0, 0);
        other.lemma_write_all_at(writes, 0, 0);
        assert forall|row: int, col: int| a.contains(row, col) implies a.at(row, col) == b.at(
            row,
            col,
        ) by {
            self.lemma_write_all_at(writes, row, col);
            other.lemma_write_all_at(writes, row, col);
        }
        a.lemma_step_deterministic(b);
    }

    /// The byte encoding of a well-formed grid has one byte per coordinate,
    /// each of them 0, 1, 2 or 3, and the byte at the position of a
    /// coordinate is that of the cell there.
    pub proof fn lemma_bytes(self, row: int, col: int)
        requires
            self.wf(),
            self.contains(row, col),
        ensures
            self.bytes().len() == self.width * self.height,
            forall|k: int| 0 <= k < self.bytes().len() ==> self.bytes()[k] <= 3,
            self.bytes()[self.index(row, col)] == self.at(row, col).spec_byte(),
    {
        self.lemma_index(row, col);
    }
}

} // verus!
