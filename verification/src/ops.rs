//! Sequences of operations on a grid.
//!
//! An [`Op`] is one call of the engine seen as a value, so that what holds
//! after any number of calls, in any order, can be stated and proved.

use vstd::prelude::*;
use crate::cell::Cell;
use crate::grid::Grid;

verus! {

/// One operation of the engine that may change its grid.
pub enum Op {
    /// One generation.
    Tick,
    /// An editor's toggle at a coordinate.
    ToggleCell { row: int, col: int },
    /// An electron injected at a coordinate.
    SetElectronhead { row: int, col: int },
    /// A batch of writes.
    SetCells { writes: Seq<(u32, u32, Cell)> },
}

impl Op {
    /// Whether the operation names only coordinates of `grid`.
    pub open spec fn fits(self, grid: Grid) -> bool {
        match self {
            Op::Tick => true,
            Op::ToggleCell { row, col } => grid.contains(row, col),
            Op::SetElectronhead { row, col } => grid.contains(row, col),
            Op::SetCells { writes } => grid.accepts(writes),
        }
    }

    /// The grid that the operation makes of `grid`.
    pub open spec fn apply(self, grid: Grid) -> Grid {
        match self {
            Op::Tick => grid.step(),
            Op::ToggleCell { row, col } => grid.toggle(row, col),
            Op::SetElectronhead { row, col } => grid.ignite(row, col),
            Op::SetCells { writes } => grid.write_all(writes),
        }
    }

    /// Whether the operation is an edit aimed at `(row, col)` that can fill
    /// an empty cell: a toggle there, or a batch with an entry for it.
    pub open spec fn fills(self, row: int, col: int) -> bool {
        match self {
            Op::Tick => false,
            Op::ToggleCell { row: r, col: c } => r == row && c == col,
            Op::SetElectronhead { .. } => false,
            Op::SetCells { writes } => Grid::last_write(writes, row, col).is_some(),
        }
    }
}

impl Grid {
    /// Whether every operation of `ops` names only coordinates of the grid.
    pub open spec fn admits(self, ops: Seq<Op>) -> bool {
        forall|i: int| 0 <= i < ops.len() ==> (#[trigger] ops[i]).fits(self)
    }

    /// The grid after the operations of `ops`, performed in order.
    pub open spec fn run(self, ops: Seq<Op>) -> Grid
        decreases ops.len(),
    {
        if ops.len() == 0 {
            self
        } else {
            ops.last().apply(self.run(ops.drop_last()))
        }
    }

    /// An operation that fits a well-formed grid yields a well-formed grid
    /// of the same dimensions.
    pub proof fn lemma_apply_wf(self, op: Op)
        requires
            self.wf(),
            op.fits(self),
        ensures
            op.apply(self).wf(),
            op.apply(self).width == self.width,
            op.apply(self).height == self.height,
    {
        match op {
            Op::Tick => {},
            Op::ToggleCell { row, col } => {
                self.lemma_index(row, col);
            },
            Op::SetElectronhead { row, col } => {
                self.lemma_index(row, col);
            },
            Op::SetCells { writes } => {
                self.lemma_write_all_at(writes, 0, 0);
            },
        }
    }

    /// Whatever operations are performed on a well-formed grid, in whatever
    /// order, the result is a well-formed grid of the same dimensions, and
    /// its byte encoding has exactly `width * height` bytes, each of them 0,
    /// 1, 2 or 3.
    pub proof fn lemma_run_wf(self, ops: Seq<Op>)
        requires
            self.wf(),
            self.admits(ops),
        ensures
            self.run(ops).wf(),
            self.run(ops).width == self.width,
            self.run(ops).height == self.height,
            self.run(ops).bytes().len() == self.width * self.height,
            forall|k: int| 0 <= k < self.run(ops).bytes().len() ==> self.run(ops).bytes()[k] <= 3,
        decreases ops.len(),
    {
        if ops.len() > 0 {
            let rest = ops.drop_last();
            assert forall|i: int| 0 <= i < rest.len() implies (#[trigger] rest[i]).fits(self) by {
                assert(rest[i] == ops[i]);
            }
            self.lemma_run_wf(rest);
            assert(ops.last() == ops[ops.len() - 1]);
            self.run(rest).lemma_apply_wf(ops.last());
        }
    }

    /// An empty cell stays empty for as long as no toggle is aimed at it and
    /// no batch of writes has an entry for it: generations and injected
    /// electrons, and edits of other cells, never fill it.
    pub proof fn lemma_empty_persists(self, ops: Seq<Op>, row: int, col: int)
        requires
            self.wf(),
            self.admits(ops),
            self.contains(row, col),
            self.at(row, col) == Cell::Empty,
            forall|i: int| 0 <= i < ops.len() ==> !(#[trigger] ops[i]).fills(row, col),
        ensures
            self.run(ops).at(row, col) == Cell::Empty,
        decreases ops.len(),
    {
        if ops.len() > 0 {
            let rest = ops.drop_last();
            let op = ops.last();
            assert forall|i: int| 0 <= i < rest.len() implies (#[trigger] rest[i]).fits(self)
                && !rest[i].fills(row, col) by {
                assert(rest[i] == ops[i]);
            }
            assert(op == ops[ops.len() - 1]);
            self.lemma_empty_persists(rest, row, col);
            self.lemma_run_wf(rest);
            let mid = self.run(rest);
            match op {
                Op::Tick => {
                    mid.lemma_step_at(row, col);
                },
                Op::ToggleCell { row: r, col: c } => {
                    mid.lemma_write_at(r, c, mid.at(r, c).spec_toggled(), row, col);
                },
                Op::SetElectronhead { row: r, col: c } => {
                    mid.lemma_write_at(r, c, mid.at(r, c).spec_ignited(), row, col);
                },
                Op::SetCells { writes } => {
                    mid.lemma_write_all_at(writes, row, col);
                },
            }
        }
    }
}

} // verus!
