//! The executable Wireworld engine.

use vstd::prelude::*;
use vstd::arithmetic::div_mod::lemma_mod_add_multiples_vanish;
use vstd::arithmetic::div_mod::lemma_mod_bound;
use vstd::arithmetic::div_mod::lemma_small_mod;
use crate::cell::Cell;
use crate::grid::Grid;

verus! {

/// A Wireworld universe of fixed dimensions.
///
/// A world owns its cell buffer; its dimensions never change after
/// construction. Its view is the [`Grid`] it currently holds.
pub struct World {
    width: u32,
    height: u32,
    cells: Vec<Cell>,
}

impl View for World {
    type V = Grid;

    closed spec fn view(&self) -> Grid {
        Grid { width: self.width as nat, height: self.height as nat, cells: self.cells@ }
    }
}

/// `(x + delta) mod modulus`, computed without overflow.
fn wrapping_offset(x: u32, delta: u32, modulus: u32) -> (r: u32)
    requires
        modulus > 0,
    ensures
        r == (x + delta) % (modulus as int),
{
    let sum: u64 = x as u64 + delta as u64;
    proof {
        lemma_mod_bound(sum as int, modulus as int);
    }
    (sum % (modulus as u64)) as u32
}

impl World {
    #[verifier::type_invariant]
    spec fn inv(self) -> bool {
        self@.wf()
    }

    /// Creates a world of the given dimensions in which every cell is empty.
    pub fn new(width: u32, height: u32) -> (world: World)
        requires
            width > 0,
            height > 0,
            width * height <= usize::MAX,
        ensures
            world@ == Grid::empty(width as nat, height as nat),
            world@.wf(),
            forall|row: int, col: int| world@.contains(row, col) ==> world@.at(row, col) == Cell::Empty,
    {
        let n: usize = width as usize * height as usize;
        let cells: Vec<Cell> = vec![Cell::Empty; n];
        let world = World { width, height, cells };
        proof {
            assert(world@.cells =~= Grid::empty(width as nat, height as nat).cells);
            assert forall|row: int, col: int| world@.contains(row, col) implies world@.at(row, col)
                == Cell::Empty by {
                world@.lemma_index(row, col);
            }
        }
        world
    }

    /// The number of columns.
    pub fn width(&self) -> (w: u32)
        ensures
            w == self@.width,
            w > 0,
            self@.wf(),
    {
        proof {
            use_type_invariant(self);
        }
        self.width
    }

    /// The number of rows.
    pub fn height(&self) -> (h: u32)
        ensures
            h == self@.height,
            h > 0,
            self@.wf(),
    {
        proof {
            use_type_invariant(self);
        }
        self.height
    }

    /// The cell buffer in its byte encoding, row by row: the byte at offset
    /// `row * width + col` is that of the cell at `(row, col)`.
    ///
    /// The bytes are a copy of the buffer as it stands; they do not follow
    /// later changes of the world.
    pub fn cells(&self) -> (bytes: Vec<u8>)
        ensures
            bytes@ == self@.bytes(),
            bytes@.len() == self@.width * self@.height,
            self@.wf(),
            forall|k: int| 0 <= k < bytes@.len() ==> bytes@[k] <= 3,
    {
        proof {
            use_type_invariant(self);
        }
        let n = self.cells.len();
        let mut bytes: Vec<u8> = Vec::with_capacity(n);
        for k in 0..n
            invariant
                n == self.cells@.len(),
                bytes@.len() == k,
                forall|i: int| 0 <= i < k ==> bytes@[i] == self.cells@[i].spec_byte(),
        {
            bytes.push(self.cells[k].byte());
        }
        proof {
            assert(bytes@ =~= self@.bytes());
        }
        bytes
    }

    /// Toggles the cell at `(row, col)` between `Empty` and `Conductor`.
    /// An electron head or tail is left as it is.
    pub fn toggle_cell(&mut self, row: u32, col: u32)
        requires
            old(self)@.contains(row as int, col as int),
        ensures
            final(self)@ == old(self)@.toggle(row as int, col as int),
            final(self)@.wf(),
            old(self)@.at(row as int, col as int) == Cell::ElectronHead || old(self)@.at(
                row as int,
                col as int,
            ) == Cell::ElectronTail ==> final(self)@ == old(self)@,
    {
        proof {
            use_type_invariant(&*self);
        }
        let idx = self.get_index(row, col);
        match self.cells[idx] {
            Cell::Empty => {
                self.cells[idx] = Cell::Conductor;
            },
            Cell::Conductor => {
                self.cells[idx] = Cell::Empty;
            },
            _ => {},
        }
        proof {
            assert(self@.cells =~= old(self)@.toggle(row as int, col as int).cells);
        }
    }

    /// Injects an electron at `(row, col)`: a `Conductor` there becomes an
    /// `ElectronHead`; any other cell is left as it is.
    pub fn set_electronhead(&mut self, row: u32, col: u32)
        requires
            old(self)@.contains(row as int, col as int),
        ensures
            final(self)@ == old(self)@.ignite(row as int, col as int),
            final(self)@.wf(),
    {
        proof {
            use_type_invariant(&*self);
        }
        let idx = self.get_index(row, col);
        if self.cells[idx] == Cell::Conductor {
            self.cells[idx] = Cell::ElectronHead;
        }
        proof {
            assert(self@.cells =~= old(self)@.ignite(row as int, col as int).cells);
        }
    }

    /// The cell buffer in row-major order.
    pub fn get_cells(&self) -> (cells: &[Cell])
        ensures
            cells@ == self@.cells,
            cells@.len() == self@.width * self@.height,
            self@.wf(),
    {
        proof {
            use_type_invariant(self);
        }
        self.cells.as_slice()
    }

    /// Writes each `(row, col, cell)` of `cells` in order, whatever the cell
    /// at that coordinate was before. Where two entries name one coordinate,
    /// the later one stands.
    pub fn set_cells(&mut self, cells: &[(u32, u32, Cell)])
        requires
            old(self)@.accepts(cells@),
        ensures
            final(self)@ == old(self)@.write_all(cells@),
            final(self)@.wf(),
    {
        let ghost before = self@;
        for i in 0..cells.len()
            invariant
                before.accepts(cells@),
                self@.width == before.width,
                self@.height == before.height,
                self@ == before.write_all(cells@.take(i as int)),
        {
            proof {
                use_type_invariant(&*self);
            }
            let (row, col, cell) = cells[i];
            let idx = self.get_index(row, col);
            self.cells[idx] = cell;
            proof {
                assert(cells@.take(i + 1).drop_last() =~= cells@.take(i as int));
                assert(self@.cells =~= before.write_all(cells@.take(i + 1)).cells);
            }
        }
        proof {
            use_type_invariant(&*self);
            assert(cells@.take(cells@.len() as int) =~= cells@);
        }
    }

    /// The position of `(row, column)` in the cell buffer.
    fn get_index(&self, row: u32, column: u32) -> (idx: usize)
        requires
            self@.contains(row as int, column as int),
        ensures
            idx == self@.index(row as int, column as int),
            idx < self.cells@.len(),
    {
        proof {
            use_type_invariant(self);
            self@.lemma_index(row as int, column as int);
            assert(self.cells@.len() == self.cells.len());
        }
        row as usize * self.width as usize + column as usize
    }

    /// 1 if the cell at `(row, column)` is an electron head, else 0.
    fn head_at(&self, row: u32, column: u32) -> (n: u8)
        requires
            self@.contains(row as int, column as int),
        ensures
            n == (if self@.at(row as int, column as int) == Cell::ElectronHead {
                1nat
            } else {
                0nat
            }),
    {
        let idx = self.get_index(row, column);
        if self.cells[idx].is_head() {
            1
        } else {
            0
        }
    }

    /// Counts the electron heads among the eight Moore neighbours of
    /// `(row, column)` on the torus.
    ///
    /// The neighbouring rows and columns are found by adding `height - 1`
    /// and `1` (`width - 1` and `1`) modulo the dimension, so that nothing is
    /// ever subtracted from a zero coordinate.
    fn electron_heads_count(&self, row: u32, column: u32) -> (count: u8)
        requires
            self@.contains(row as int, column as int),
        ensures
            count == self@.heads_around(row as int, column as int),
            count <= 8,
    {
        proof {
            use_type_invariant(self);
        }
        let up = wrapping_offset(row, self.height - 1, self.height);
        let down = wrapping_offset(row, 1, self.height);
        let left = wrapping_offset(column, self.width - 1, self.width);
        let right = wrapping_offset(column, 1, self.width);
        proof {
            let h = self.height as int;
            let w = self.width as int;
            lemma_mod_add_multiples_vanish(row - 1, h);
            lemma_mod_add_multiples_vanish(column - 1, w);
            lemma_small_mod(row as nat, h as nat);
            lemma_small_mod(column as nat, w as nat);
            lemma_mod_bound(row + 1, h);
            lemma_mod_bound(column + 1, w);
        }
        let above = self.head_at(up, left) + self.head_at(up, column) + self.head_at(up, right);
        let beside = self.head_at(row, left) + self.head_at(row, right);
        let below = self.head_at(down, left) + self.head_at(down, column) + self.head_at(
            down,
            right,
        );
        above + beside + below
    }

    /// Advances the world by one generation.
    ///
    /// The successor of every cell is computed from the cells as they stood
    /// before the call and collected in a fresh buffer, which then replaces
    /// the old one.
    pub fn tick(&mut self)
        ensures
            final(self)@ == old(self)@.step(),
            final(self)@.wf(),
    {
        proof {
            use_type_invariant(&*self);
        }
        let ghost before = self@;
        let mut next = self.cells.clone();

        let mut row: u32 = 0;
        while row < self.height
            invariant
                self@ == before,
                before.wf(),
                row <= before.height,
                next@.len() == before.cells.len(),
                forall|k: int| 0 <= k < row * before.width ==> next@[k] == before.next_at(k),
            decreases before.height - row,
        {
            let mut col: u32 = 0;
            while col < self.width
                invariant
                    self@ == before,
                    before.wf(),
                    row < before.height,
                    col <= before.width,
                    next@.len() == before.cells.len(),
                    forall|k: int|
                        0 <= k < row * before.width + col ==> next@[k] == before.next_at(k),
                decreases before.width - col,
            {
                let idx = self.get_index(row, col);
                let cell = self.cells[idx];
                let electron_heads = self.electron_heads_count(row, col);
                proof {
                    before.lemma_index(row as int, col as int);
                }
                next[idx] = cell.next(electron_heads);
                col += 1;
            }
            assert(row * before.width + before.width == (row + 1) * before.width)
                by (nonlinear_arith);
            row += 1;
        }

        self.cells = next;
        proof {
            assert(self.height * before.width == before.cells.len()) by (nonlinear_arith)
                requires
                    before.cells.len() == before.width * before.height,
                    self.height == before.height,
            ;
            assert(self@.cells =~= before.step().cells);
        }
    }
}

} // verus!
