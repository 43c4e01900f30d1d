use vstd::prelude::*;
use crate::cell::Cell;
use vstd::arithmetic::div_mod::{
    lemma_fundamental_div_mod, lemma_fundamental_div_mod_converse, lemma_mod_pos_bound,
};

verus! {

/// The mathematical picture of a universe: its dimensions and its cells in
/// row-major order (the cell at `(r, c)` sits at index `r * width + c`).
pub struct Grid {
    pub width: int,
    pub height: int,
    pub cells: Seq<Cell>,
}

/// How far a neighbour lies from a cell along one axis, for `i` in `0..3`:
/// `n - 1` stands for one step back, so no subtraction is needed, and
/// 0 and 1 for no step and one step forward.
pub open spec fn offset(i: int, n: int) -> int {
    if i == 0 {
        n - 1
    } else {
        i - 1
    }
}

/// The coordinate `i` steps (in the sense of `offset`) away from `x` on an
/// axis of length `n`, wrapping around at the edges.
pub open spec fn wrapped(x: int, i: int, n: int) -> int {
    (x + offset(i, n)) % n
}

/// The state of a cell in the next generation, from its state now and the
/// number `n` of its live neighbours.
pub open spec fn next_state(cell: Cell, n: int) -> Cell {
    match cell {
        Cell::Alive => if n == 2 || n == 3 {
            Cell::Alive
        } else {
            Cell::Dead
        },
        Cell::Dead => if n == 3 {
            Cell::Alive
        } else {
            Cell::Dead
        },
    }
}

/// The cell that a glider holds at `(dr, dc)` of its 3×3 box:
/// ```text
/// . # .
/// . . #
/// # # #
/// ```
pub open spec fn glider_cell(dr: int, dc: int) -> Cell {
    if (dr == 0 && dc == 1) || (dr == 1 && dc == 2) || dr == 2 {
        Cell::Alive
    } else {
        Cell::Dead
    }
}

/// The character that shows a cell in the text rendering.
pub open spec fn glyph(cell: Cell) -> char {
    match cell {
        Cell::Dead => '◻',
        Cell::Alive => '◼',
    }
}

/// The flat index `r * w + c` of a position with `0 <= c < w` gives back
/// its row and column by division and remainder.
pub proof fn lemma_index_parts(w: int, r: int, c: int)
    requires
        0 <= c < w,
    ensures
        (r * w + c) / w == r,
        (r * w + c) % w == c,
{
    lemma_fundamental_div_mod_converse(r * w + c, w, r, c);
}

/// Every flat index below `w * h` is the index of a position inside the
/// grid, namely of `(k / w, k % w)`.
pub proof fn lemma_flat_index(w: int, h: int, k: int)
    requires
        w >= 1,
        0 <= k < w * h,
    ensures
        k == (k / w) * w + k % w,
        0 <= k / w < h,
        0 <= k % w < w,
{
    lemma_fundamental_div_mod(k, w);
    lemma_mod_pos_bound(k, w);
    let q = k / w;
    let m = k % w;
    assert(0 <= q < h) by (nonlinear_arith)
        requires
            k == w * q + m,
            0 <= m < w,
            0 <= k < w * h,
    ;
    assert(w * q == q * w) by (nonlinear_arith);
}

impl Grid {
    /// Both dimensions are at least 1 and there is one cell per position.
    pub open spec fn wf(self) -> bool {
        &&& self.width >= 1
        &&& self.height >= 1
        &&& self.cells.len() == self.width * self.height
    }

    pub open spec fn in_bounds(self, r: int, c: int) -> bool {
        0 <= r < self.height && 0 <= c < self.width
    }

    pub open spec fn index(self, r: int, c: int) -> int {
        r * self.width + c
    }

    pub open spec fn at(self, r: int, c: int) -> Cell {
        self.cells[self.index(r, c)]
    }

    /// What the neighbour at step `(i, j)` of the 3×3 box around `(r, c)`
    /// adds to the count; the centre of the box is the cell itself and adds 0.
    pub open spec fn neighbor_term(self, r: int, c: int, i: int, j: int) -> int {
        if i == 1 && j == 1 {
            0
        } else {
            self.at(wrapped(r, i, self.height), wrapped(c, j, self.width)).weight()
        }
    }

    /// The sum of the first `m` terms of row `i` of the box around `(r, c)`.
    pub open spec fn row_sum(self, r: int, c: int, i: int, m: int) -> int
        decreases m,
    {
        if m <= 0 {
            0
        } else {
            self.row_sum(r, c, i, m - 1) + self.neighbor_term(r, c, i, m - 1)
        }
    }

    /// The sum of the first `m` rows of the box around `(r, c)`.
    pub open spec fn box_sum(self, r: int, c: int, m: int) -> int
        decreases m,
    {
        if m <= 0 {
            0
        } else {
            self.box_sum(r, c, m - 1) + self.row_sum(r, c, m - 1, 3)
        }
    }

    /// The number of live cells among the eight toroidal neighbours of `(r, c)`.
    pub open spec fn neighbor_count(self, r: int, c: int) -> int {
        self.box_sum(r, c, 3)
    }

    /// `(r2, c2)` is one of the eight neighbours of `(r, c)` on the torus.
    pub open spec fn is_neighbor(self, r: int, c: int, r2: int, c2: int) -> bool {
        exists|i: int, j: int|
            0 <= i < 3 && 0 <= j < 3 && !(i == 1 && j == 1) && wrapped(r, i, self.height) == r2
                && wrapped(c, j, self.width) == c2
    }

    /// The next generation: every cell follows the rule, applied to the
    /// current generation alone.
    pub open spec fn next(self) -> Grid {
        Grid {
            cells: Seq::new(
                self.cells.len(),
                |k: int|
                    next_state(
                        self.cells[k],
                        self.neighbor_count(k / self.width, k % self.width),
                    ),
            ),
            ..self
        }
    }

    /// In a well-formed grid, the next generation holds at `(r, c)` what the
    /// rule gives for the cell there and its neighbours in this generation.
    pub proof fn lemma_next_at(self, r: int, c: int)
        requires
            self.wf(),
            self.in_bounds(r, c),
        ensures
            self.next().wf(),
            self.next().at(r, c) == next_state(self.at(r, c), self.neighbor_count(r, c)),
    {
        lemma_index_parts(self.width, r, c);
        assert(0 <= r * self.width + c < self.width * self.height) by (nonlinear_arith)
            requires
                0 <= r < self.height,
                0 <= c < self.width,
        ;
    }

    /// The same dimensions, with every cell dead.
    pub open spec fn cleared(self) -> Grid {
        Grid { cells: Seq::new(self.cells.len(), |k: int| Cell::Dead), ..self }
    }

    /// A grid of the given dimensions with every cell dead.
    pub open spec fn empty(width: int, height: int) -> Grid {
        Grid { width, height, cells: Seq::new((width * height) as nat, |k: int| Cell::Dead) }
    }

    /// The cell at `(r, c)` set to `v`.
    pub open spec fn with_cell(self, r: int, c: int, v: Cell) -> Grid {
        Grid { cells: self.cells.update(self.index(r, c), v), ..self }
    }

    /// The cell at `(r, c)` flipped.
    pub open spec fn toggled(self, r: int, c: int) -> Grid {
        self.with_cell(r, c, self.at(r, c).flipped())
    }

    /// The cells at the given positions set alive, one after the other.
    pub open spec fn with_alive(self, cells: Seq<(u32, u32)>) -> Grid
        decreases cells.len(),
    {
        if cells.len() == 0 {
            self
        } else {
            let p = cells.last();
            self.with_alive(cells.drop_last()).with_cell(p.0 as int, p.1 as int, Cell::Alive)
        }
    }

    /// The 3×3 box centred at `(r, c)` lies inside the grid.
    pub open spec fn glider_fits(self, r: int, c: int) -> bool {
        1 <= r && r + 1 < self.height && 1 <= c && c + 1 < self.width
    }

    /// `(r2, c2)` lies in the 3×3 box centred at `(r, c)`.
    pub open spec fn in_box(r: int, c: int, r2: int, c2: int) -> bool {
        r - 1 <= r2 <= r + 1 && c - 1 <= c2 <= c + 1
    }

    /// The grid with a glider stamped into the 3×3 box centred at `(r, c)`,
    /// overwriting what the box held; every other cell stays.
    pub open spec fn with_glider(self, r: int, c: int) -> Grid {
        Grid {
            cells: Seq::new(
                self.cells.len(),
                |k: int|
                    if Grid::in_box(r, c, k / self.width, k % self.width) {
                        glider_cell(k / self.width - r + 1, k % self.width - c + 1)
                    } else {
                        self.cells[k]
                    },
            ),
            ..self
        }
    }

    /// The text of row `r`: one glyph per cell.
    pub open spec fn row_text(self, r: int) -> Seq<char> {
        Seq::new(self.width as nat, |c: int| glyph(self.at(r, c)))
    }

    /// The text of the first `n` rows, each followed by a newline.
    pub open spec fn text(self, n: int) -> Seq<char>
        decreases n,
    {
        if n <= 0 {
            Seq::empty()
        } else {
            self.text(n - 1) + self.row_text(n - 1) + seq!['\n']
        }
    }

    /// The whole grid as text.
    pub open spec fn render(self) -> Seq<char> {
        self.text(self.height)
    }
}

} // verus!
