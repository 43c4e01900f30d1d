use vstd::prelude::*;
use vstd::arithmetic::div_mod::lemma_mod_pos_bound;
use crate::cell::Cell;
use crate::grid::{
    glider_cell, glyph, lemma_flat_index, lemma_index_parts, offset, wrapped, Grid,
};

verus! {

/// Why an edit of the grid was refused.
#[derive(Debug, Clone, Copy, PartialEq, Eq, Structural)]
pub enum GridError {
    /// The position `(row, col)` lies outside the grid; positions given for
    /// edits are never wrapped around.
    OutOfBounds { row: u32, col: u32 },
}

/// The number of columns of a new universe.
pub const DEFAULT_WIDTH: u32 = 64;

/// The number of rows of a new universe.
pub const DEFAULT_HEIGHT: u32 = 64;

/// A Game of Life on a toroidal grid of `width` columns and `height` rows.
pub struct Universe {
    width: u32,
    height: u32,
    cells: Vec<Cell>,
}

impl View for Universe {
    type V = Grid;

    closed spec fn view(&self) -> Grid {
        Grid { width: self.width as int, height: self.height as int, cells: self.cells@ }
    }
}

/// Position `r * w + c` is below `w * h` for a position inside a `w` by `h` grid.
proof fn lemma_index_below(w: int, h: int, r: int, c: int)
    requires
        0 <= r < h,
        0 <= c < w,
    ensures
        0 <= r * w + c < w * h,
{
    assert(0 <= r * w + c < w * h) by (nonlinear_arith)
        requires
            0 <= r < h,
            0 <= c < w,
    ;
}

impl Universe {
    /// The dimensions are at least 1, their product fits in a `u32`, and
    /// there is one cell per position.
    pub open spec fn wf(&self) -> bool {
        &&& self@.wf()
        &&& self@.width * self@.height <= u32::MAX
    }

    /// The flat index of the cell at `(row, col)`.
    fn get_index(&self, row: u32, col: u32) -> (r: usize)
        requires
            self.wf(),
            self@.in_bounds(row as int, col as int),
        ensures
            r == self@.index(row as int, col as int),
            r < self.cells@.len(),
    {
        proof {
            lemma_index_below(self.width as int, self.height as int, row as int, col as int);
        }
        (row * self.width + col) as usize
    }

    /// The number of live cells among the eight neighbours of `(row, col)`,
    /// wrapping around at the edges.
    fn neigh_alive_count(&self, row: u32, col: u32) -> (r: u8)
        requires
            self.wf(),
            self@.in_bounds(row as int, col as int),
        ensures
            r == self@.neighbor_count(row as int, col as int),
            r <= 8,
    {
        let mut count: u8 = 0;
        let mut i: u32 = 0;
        while i < 3
            invariant
                self.wf(),
                self@.in_bounds(row as int, col as int),
                i <= 3,
                count == self@.box_sum(row as int, col as int, i as int),
                count <= 3 * i - (if i >= 2 { 1int } else { 0 }),
            decreases 3 - i,
        {
            let d_row: u32 = if i == 0 { self.height - 1 } else { i - 1 };
            let mut j: u32 = 0;
            while j < 3
                invariant
                    self.wf(),
                    self@.in_bounds(row as int, col as int),
                    i < 3,
                    j <= 3,
                    d_row == offset(i as int, self.height as int),
                    count == self@.box_sum(row as int, col as int, i as int) + self@.row_sum(
                        row as int,
                        col as int,
                        i as int,
                        j as int,
                    ),
                    count <= 3 * i + j - (if i >= 2 || (i == 1 && j >= 2) { 1int } else { 0 }),
                decreases 3 - j,
            {
                if !(i == 1 && j == 1) {
                    let d_col: u32 = if j == 0 { self.width - 1 } else { j - 1 };
                    let n_row = ((row as u64 + d_row as u64) % (self.height as u64)) as u32;
                    let n_col = ((col as u64 + d_col as u64) % (self.width as u64)) as u32;
                    proof {
                        lemma_mod_pos_bound(row + d_row, self.height as int);
                        lemma_mod_pos_bound(col + d_col, self.width as int);
                        assert(n_row == wrapped(row as int, i as int, self.height as int));
                        assert(n_col == wrapped(col as int, j as int, self.width as int));
                    }
                    let k = self.get_index(n_row, n_col);
                    if self.cells[k] == Cell::Alive {
                        count = count + 1;
                    }
                }
                j = j + 1;
            }
            i = i + 1;
        }
        count
    }

    /// The cells of the next generation, computed from this generation alone
    /// into a buffer of their own.
    fn next_cells(&self) -> (r: Vec<Cell>)
        requires
            self.wf(),
        ensures
            r@ == self@.next().cells,
    {
        let mut future = self.cells.clone();
        let mut row: u32 = 0;
        while row < self.height
            invariant
                self.wf(),
                row <= self.height,
                future@.len() == self.cells@.len(),
                forall|k: int|
                    0 <= k < row * self.width ==> #[trigger] future@[k] == self@.next().cells[k],
            decreases self.height - row,
        {
            let mut col: u32 = 0;
            while col < self.width
                invariant
                    self.wf(),
                    row < self.height,
                    col <= self.width,
                    future@.len() == self.cells@.len(),
                    forall|k: int|
                        0 <= k < row * self.width + col ==> #[trigger] future@[k]
                            == self@.next().cells[k],
                decreases self.width - col,
            {
                let i = self.get_index(row, col);
                let cell = self.cells[i];
                let alive_count = self.neigh_alive_count(row, col);
                let future_cell = match (cell, alive_count) {
                    (Cell::Alive, x) if x < 2 => Cell::Dead,
                    (Cell::Alive, 2) | (Cell::Alive, 3) => Cell::Alive,
                    (Cell::Alive, x) if x > 3 => Cell::Dead,
                    (Cell::Dead, 3) => Cell::Alive,
                    (otherwise, _) => otherwise,
                };
                proof {
                    lemma_index_parts(self.width as int, row as int, col as int);
                }
                future.set(i, future_cell);
                col = col + 1;
            }
            proof {
                assert(row * self.width + self.width == (row + 1) * self.width) by (nonlinear_arith);
            }
            row = row + 1;
        }
        proof {
            assert(self.height * self.width == self.cells@.len()) by (nonlinear_arith)
                requires
                    self.cells@.len() == self.width * self.height,
            ;
        }
        assert(future@ =~= self@.next().cells);
        future
    }

    /// Advances the universe by one generation: every cell takes the state
    /// that the rule gives from its own state and its eight neighbours'
    /// states in the current generation.
    pub fn tick(&mut self)
        requires
            old(self).wf(),
        ensures
            final(self).wf(),
            final(self)@ == old(self)@.next(),
    {
        let future = self.next_cells();
        self.cells = future;
    }

    /// A 64 by 64 universe whose cell at flat index `k` is alive exactly when
    /// `alive[k]` holds. Drawing each flag at random, alive with probability
    /// one half, gives the usual random start.
    pub fn new(alive: &Vec<bool>) -> (r: Universe)
        requires
            alive@.len() == DEFAULT_WIDTH * DEFAULT_HEIGHT,
        ensures
            r.wf(),
            r@.width == DEFAULT_WIDTH,
            r@.height == DEFAULT_HEIGHT,
            r@.cells == Seq::new(
                alive@.len(),
                |k: int|
                    if alive@[k] {
                        Cell::Alive
                    } else {
                        Cell::Dead
                    },
            ),
    {
        let width: u32 = DEFAULT_WIDTH;
        let height: u32 = DEFAULT_HEIGHT;
        let mut cells: Vec<Cell> = Vec::new();
        let n: usize = (width * height) as usize;
        let mut k: usize = 0;
        while k < n
            invariant
                n == alive@.len(),
                k <= n,
                cells@.len() == k,
                forall|m: int|
                    0 <= m < k ==> #[trigger] cells@[m] == (if alive@[m] {
                        Cell::Alive
                    } else {
                        Cell::Dead
                    }),
            decreases n - k,
        {
            if alive[k] {
                cells.push(Cell::Alive);
            } else {
                cells.push(Cell::Dead);
            }
            k = k + 1;
        }
        let r = Universe { width, height, cells };
        assert(r@.cells =~= Seq::new(
            alive@.len(),
            |k: int|
                if alive@[k] {
                    Cell::Alive
                } else {
                    Cell::Dead
                },
        ));
        r
    }

    /// The number of columns.
    pub fn width(&self) -> (r: u32)
        ensures
            r == self@.width,
    {
        self.width
    }

    /// The number of rows.
    pub fn height(&self) -> (r: u32)
        ensures
            r == self@.height,
    {
        self.height
    }

    /// All cells, row by row.
    pub fn get_cells(&self) -> (r: &[Cell])
        ensures
            r@ == self@.cells,
    {
        self.cells.as_slice()
    }

    /// Sets the number of columns to `width` and makes every cell dead; the
    /// earlier pattern is not kept.
    pub fn set_width(&mut self, width: u32)
        requires
            old(self).wf(),
            width >= 1,
            width * old(self)@.height <= u32::MAX,
        ensures
            final(self).wf(),
            final(self)@ == Grid::empty(width as int, old(self)@.height),
    {
        self.width = width;
        self.cells = vec![Cell::Dead; (width * self.height) as usize];
        assert(self@.cells =~= Grid::empty(width as int, self.height as int).cells);
    }

    /// Sets the number of rows to `height` and makes every cell dead; the
    /// earlier pattern is not kept.
    pub fn set_height(&mut self, height: u32)
        requires
            old(self).wf(),
            height >= 1,
            old(self)@.width * height <= u32::MAX,
        ensures
            final(self).wf(),
            final(self)@ == Grid::empty(old(self)@.width, height as int),
    {
        self.height = height;
        self.cells = vec![Cell::Dead; (self.width * height) as usize];
        assert(self@.cells =~= Grid::empty(self.width as int, height as int).cells);
    }

    /// Makes every cell dead; the dimensions stay.
    pub fn clear(&mut self)
        requires
            old(self).wf(),
        ensures
            final(self).wf(),
            final(self)@ == old(self)@.cleared(),
    {
        let cells: Vec<Cell> = vec![Cell::Dead; self.cells.len()];
        self.cells = cells;
        assert(self@.cells =~= old(self)@.cleared().cells);
    }

    /// Flips the cell at `(row, col)`. A position outside the grid is
    /// refused and leaves the universe as it was.
    pub fn toggle_cell(&mut self, row: u32, col: u32) -> (r: Result<(), GridError>)
        requires
            old(self).wf(),
        ensures
            final(self).wf(),
            old(self)@.in_bounds(row as int, col as int) ==> r is Ok && final(self)@ == old(
                self,
            )@.toggled(row as int, col as int),
            !old(self)@.in_bounds(row as int, col as int) ==> r == Err::<(), GridError>(
                GridError::OutOfBounds { row, col },
            ) && final(self)@ == old(self)@,
    {
        if row >= self.height || col >= self.width {
            return Err(GridError::OutOfBounds { row, col });
        }
        let i = self.get_index(row, col);
        let mut cell = self.cells[i];
        cell.toggle();
        self.cells.set(i, cell);
        Ok(())
    }

    /// Sets alive the cell at each `(row, col)` of `cells`. If some position
    /// lies outside the grid, the first such one is named in the error and
    /// no cell is changed.
    pub fn set_cells(&mut self, cells: &[(u32, u32)]) -> (r: Result<(), GridError>)
        requires
            old(self).wf(),
        ensures
            final(self).wf(),
            (forall|j: int|
                0 <= j < cells@.len() ==> old(self)@.in_bounds(
                    #[trigger] cells@[j].0 as int,
                    cells@[j].1 as int,
                )) ==> r is Ok && final(self)@ == old(self)@.with_alive(cells@),
            r is Err ==> final(self)@ == old(self)@ && exists|j: int|
                0 <= j < cells@.len() && !old(self)@.in_bounds(
                    cells@[j].0 as int,
                    cells@[j].1 as int,
                ) && (forall|j2: int|
                    0 <= j2 < j ==> old(self)@.in_bounds(
                        #[trigger] cells@[j2].0 as int,
                        cells@[j2].1 as int,
                    )) && r == Err::<(), GridError>(
                    GridError::OutOfBounds { row: cells@[j].0, col: cells@[j].1 },
                ),
    {
        let n = cells.len();
        let mut m: usize = 0;
        while m < n
            invariant
                self.wf(),
                n == cells@.len(),
                m <= n,
                forall|j: int|
                    0 <= j < m ==> self@.in_bounds(
                        #[trigger] cells@[j].0 as int,
                        cells@[j].1 as int,
                    ),
            decreases n - m,
        {
            let (row, col) = cells[m];
            if row >= self.height || col >= self.width {
                return Err(GridError::OutOfBounds { row, col });
            }
            m = m + 1;
        }
        let mut m: usize = 0;
        while m < n
            invariant
                self.wf(),
                n == cells@.len(),
                m <= n,
                self@.width == old(self)@.width,
                self@.height == old(self)@.height,
                forall|j: int|
                    0 <= j < n ==> old(self)@.in_bounds(
                        #[trigger] cells@[j].0 as int,
                        cells@[j].1 as int,
                    ),
                self@ == old(self)@.with_alive(cells@.take(m as int)),
            decreases n - m,
        {
            let (row, col) = cells[m];
            let idx = self.get_index(row, col);
            self.cells.set(idx, Cell::Alive);
            assert(cells@.take(m as int + 1).drop_last() =~= cells@.take(m as int));
            m = m + 1;
        }
        assert(cells@.take(n as int) =~= cells@);
        Ok(())
    }

    /// The cell of the glider at `(dr, dc)` of its 3×3 box.
    fn glider_at(dr: u32, dc: u32) -> (r: Cell)
        ensures
            r == glider_cell(dr as int, dc as int),
    {
        if (dr == 0 && dc == 1) || (dr == 1 && dc == 2) || dr == 2 {
            Cell::Alive
        } else {
            Cell::Dead
        }
    }

    /// Stamps a glider into the 3×3 box centred at `(row, col)`, overwriting
    /// the nine cells there. The box is not wrapped around the edges: where
    /// it does not fit inside the grid, the centre is named in the error and
    /// no cell is changed.
    pub fn insert_glider(&mut self, row: u32, col: u32) -> (r: Result<(), GridError>)
        requires
            old(self).wf(),
        ensures
            final(self).wf(),
            old(self)@.glider_fits(row as int, col as int) ==> r is Ok && final(self)@ == old(
                self,
            )@.with_glider(row as int, col as int),
            !old(self)@.glider_fits(row as int, col as int) ==> r == Err::<(), GridError>(
                GridError::OutOfBounds { row, col },
            ) && final(self)@ == old(self)@,
    {
        if row < 1 || col < 1 || row >= self.height - 1 || col >= self.width - 1 {
            return Err(GridError::OutOfBounds { row, col });
        }
        let ghost w = self.width as int;
        let mut dr: u32 = 0;
        while dr < 3
            invariant
                self.wf(),
                old(self)@.glider_fits(row as int, col as int),
                self@.width == w,
                self@.width == old(self)@.width,
                self@.height == old(self)@.height,
                dr <= 3,
                forall|r2: int, c2: int|
                    #![trigger self@.at(r2, c2)]
                    self@.in_bounds(r2, c2) ==> self@.at(r2, c2) == if Grid::in_box(
                        row as int,
                        col as int,
                        r2,
                        c2,
                    ) && r2 - row + 1 < dr {
                        glider_cell(r2 - row + 1, c2 - col + 1)
                    } else {
                        old(self)@.at(r2, c2)
                    },
            decreases 3 - dr,
        {
            let mut dc: u32 = 0;
            while dc < 3
                invariant
                    self.wf(),
                    old(self)@.glider_fits(row as int, col as int),
                    self@.width == w,
                    self@.width == old(self)@.width,
                    self@.height == old(self)@.height,
                    dr < 3,
                    dc <= 3,
                    forall|r2: int, c2: int|
                        #![trigger self@.at(r2, c2)]
                        self@.in_bounds(r2, c2) ==> self@.at(r2, c2) == if Grid::in_box(
                            row as int,
                            col as int,
                            r2,
                            c2,
                        ) && (r2 - row + 1 < dr || (r2 - row + 1 == dr && c2 - col + 1 < dc)) {
                            glider_cell(r2 - row + 1, c2 - col + 1)
                        } else {
                            old(self)@.at(r2, c2)
                        },
                decreases 3 - dc,
            {
                let r0 = row - 1 + dr;
                let c0 = col - 1 + dc;
                let idx = self.get_index(r0, c0);
                let v = Universe::glider_at(dr, dc);
                let ghost before = self@;
                self.cells.set(idx, v);
                assert forall|r2: int, c2: int|
                    #![trigger self@.at(r2, c2)]
                    self@.in_bounds(r2, c2) implies self@.at(r2, c2) == if (r2 == r0 && c2
                        == c0) {
                        v
                    } else {
                        before.at(r2, c2)
                    } by {
                    lemma_index_parts(w, r2, c2);
                    lemma_index_parts(w, r0 as int, c0 as int);
                    lemma_index_below(w, self@.height, r2, c2);
                }
                dc = dc + 1;
            }
            dr = dr + 1;
        }
        assert forall|k: int| 0 <= k < self@.cells.len() implies self@.cells[k] == old(
            self,
        )@.with_glider(row as int, col as int).cells[k] by {
            lemma_flat_index(w, self@.height, k);
            assert(self@.at(k / w, k % w) == self@.cells[k]);
        }
        assert(self@.cells =~= old(self)@.with_glider(row as int, col as int).cells);
        Ok(())
    }

    /// The grid as text: one line per row, top row first, each cell shown as
    /// `◻` when dead and `◼` when alive, each line ended by a newline.
    pub fn render(&self) -> (r: String)
        requires
            self.wf(),
        ensures
            r@ == self@.render(),
    {
        let mut text = String::new();
        let mut row: u32 = 0;
        while row < self.height
            invariant
                self.wf(),
                row <= self.height,
                text@ == self@.text(row as int),
            decreases self.height - row,
        {
            let mut col: u32 = 0;
            while col < self.width
                invariant
                    self.wf(),
                    row < self.height,
                    col <= self.width,
                    text@ == self@.text(row as int) + self@.row_text(row as int).take(col as int),
                decreases self.width - col,
            {
                let i = self.get_index(row, col);
                let ghost before = text@;
                if self.cells[i] == Cell::Dead {
                    proof {
                        reveal_strlit("◻");
                    }
                    text.append("◻");
                } else {
                    proof {
                        reveal_strlit("◼");
                    }
                    text.append("◼");
                }
                assert(self@.row_text(row as int).take(col as int + 1) =~= self@.row_text(
                    row as int,
                ).take(col as int) + seq![glyph(self@.at(row as int, col as int))]);
                col = col + 1;
            }
            proof {
                reveal_strlit("\n");
            }
            text.append("\n");
            assert(self@.row_text(row as int).take(self.width as int) =~= self@.row_text(
                row as int,
            ));
            row = row + 1;
        }
        text
    }
}

} // verus!
