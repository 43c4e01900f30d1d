use vstd::prelude::*;
use vstd::arithmetic::div_mod::{lemma_fundamental_div_mod_converse, lemma_small_mod};
use crate::cell::Cell;
use crate::grid::{lemma_flat_index, lemma_index_parts, next_state, wrapped, Grid};

verus! {

/// The live cells of a glider `k` generations after it was stamped, for `k`
/// in `0..5`, as offsets `(dr, dc)` from the centre where it was stamped.
pub open spec fn glider_phase(k: int, dr: int, dc: int) -> bool {
    // phase 4 is phase 0 moved by one row down and one column right
    if k == 0 {
        (dr == -1 && dc == 0) || (dr == 0 && dc == 1) || (dr == 1 && -1 <= dc <= 1)
    } else if k == 1 {
        (dr == 0 && (dc == -1 || dc == 1)) || (dr == 1 && 0 <= dc <= 1) || (dr == 2 && dc == 0)
    } else if k == 2 {
        (dr == 0 && dc == 1) || (dr == 1 && (dc == -1 || dc == 1)) || (dr == 2 && 0 <= dc <= 1)
    } else if k == 3 {
        (dr == 0 && dc == 0) || (dr == 1 && 1 <= dc <= 2) || (dr == 2 && 0 <= dc <= 1)
    } else {
        (dr == 0 && dc == 1) || (dr == 1 && dc == 2) || (dr == 2 && 0 <= dc <= 2)
    }
}

/// The cell at offset `(dr, dc)` in phase `k`.
pub open spec fn phase_cell(k: int, dr: int, dc: int) -> Cell {
    if glider_phase(k, dr, dc) {
        Cell::Alive
    } else {
        Cell::Dead
    }
}

/// The grid holds phase `k` of a glider around `(r, c)` and nothing else.
pub open spec fn shows_phase(g: Grid, k: int, r: int, c: int) -> bool {
    forall|r2: int, c2: int|
        #![trigger g.at(r2, c2)]
        g.in_bounds(r2, c2) ==> g.at(r2, c2) == phase_cell(k, r2 - r, c2 - c)
}

/// The glider, in all four of its phases, keeps two rows and two columns
/// away from the edges, so that nothing it does wraps around.
pub open spec fn away_from_edges(g: Grid, r: int, c: int) -> bool {
    2 <= r && r + 3 < g.height && 2 <= c && c + 3 < g.width
}

/// 1 where phase `k` has a live cell at offset `(dr, dc)`, else 0.
pub open spec fn phase_weight(k: int, dr: int, dc: int) -> int {
    if glider_phase(k, dr, dc) {
        1
    } else {
        0
    }
}

/// The number of live neighbours of offset `(dr, dc)` in phase `k`.
pub open spec fn phase_count(k: int, dr: int, dc: int) -> int {
    phase_weight(k, dr - 1, dc - 1) + phase_weight(k, dr - 1, dc) + phase_weight(k, dr - 1, dc + 1)
        + phase_weight(k, dr, dc - 1) + phase_weight(k, dr, dc + 1) + phase_weight(
        k,
        dr + 1,
        dc - 1,
    ) + phase_weight(k, dr + 1, dc) + phase_weight(k, dr + 1, dc + 1)
}

/// Stepping from `x` wraps around only past either end of the axis.
proof fn lemma_wrapped(x: int, i: int, n: int)
    requires
        0 <= x < n,
        0 <= i < 3,
    ensures
        wrapped(x, i, n) == if x + i - 1 < 0 {
            n - 1
        } else if x + i - 1 >= n {
            0
        } else {
            x + i - 1
        },
{
    if i == 0 {
        if x == 0 {
            lemma_small_mod((n - 1) as nat, n as nat);
        } else {
            lemma_fundamental_div_mod_converse(x + n - 1, n, 1, x - 1);
        }
    } else if i == 1 {
        lemma_small_mod(x as nat, n as nat);
    } else {
        if x + 1 < n {
            lemma_small_mod((x + 1) as nat, n as nat);
        } else {
            lemma_fundamental_div_mod_converse(n, n, 1, 0);
        }
    }
}

/// Away from the edges, each term of a cell's neighbour count reads the
/// phase at the matching offset.
proof fn lemma_term(g: Grid, k: int, r: int, c: int, r2: int, c2: int, i: int, j: int)
    requires
        g.wf(),
        0 <= k < 4,
        shows_phase(g, k, r, c),
        away_from_edges(g, r, c),
        g.in_bounds(r2, c2),
        0 <= i < 3,
        0 <= j < 3,
    ensures
        g.neighbor_term(r2, c2, i, j) == if i == 1 && j == 1 {
            0
        } else {
            phase_weight(k, r2 + i - 1 - r, c2 + j - 1 - c)
        },
{
    lemma_wrapped(r2, i, g.height);
    lemma_wrapped(c2, j, g.width);
    let a = wrapped(r2, i, g.height);
    let b = wrapped(c2, j, g.width);
    assert(g.in_bounds(a, b));
    assert(g.at(a, b) == phase_cell(k, a - r, b - c));
}

/// Away from the edges, a cell's neighbour count depends only on its offset
/// from the glider.
proof fn lemma_count(g: Grid, k: int, r: int, c: int, r2: int, c2: int)
    requires
        g.wf(),
        0 <= k < 4,
        shows_phase(g, k, r, c),
        away_from_edges(g, r, c),
        g.in_bounds(r2, c2),
    ensures
        g.neighbor_count(r2, c2) == phase_count(k, r2 - r, c2 - c),
{
    reveal_with_fuel(Grid::box_sum, 4);
    reveal_with_fuel(Grid::row_sum, 4);
    lemma_term(g, k, r, c, r2, c2, 0, 0);
    lemma_term(g, k, r, c, r2, c2, 0, 1);
    lemma_term(g, k, r, c, r2, c2, 0, 2);
    lemma_term(g, k, r, c, r2, c2, 1, 0);
    lemma_term(g, k, r, c, r2, c2, 1, 1);
    lemma_term(g, k, r, c, r2, c2, 1, 2);
    lemma_term(g, k, r, c, r2, c2, 2, 0);
    lemma_term(g, k, r, c, r2, c2, 2, 1);
    lemma_term(g, k, r, c, r2, c2, 2, 2);
    assert(g.neighbor_term(r2, c2, 0, 0) == phase_weight(k, r2 - 1 - r, c2 - 1 - c));
    assert(g.neighbor_term(r2, c2, 0, 1) == phase_weight(k, r2 - 1 - r, c2 - c));
    assert(g.neighbor_term(r2, c2, 0, 2) == phase_weight(k, r2 - 1 - r, c2 + 1 - c));
    assert(g.neighbor_term(r2, c2, 1, 0) == phase_weight(k, r2 - r, c2 - 1 - c));
    assert(g.neighbor_term(r2, c2, 1, 1) == 0);
    assert(g.neighbor_term(r2, c2, 1, 2) == phase_weight(k, r2 - r, c2 + 1 - c));
    assert(g.neighbor_term(r2, c2, 2, 0) == phase_weight(k, r2 + 1 - r, c2 - 1 - c));
    assert(g.neighbor_term(r2, c2, 2, 1) == phase_weight(k, r2 + 1 - r, c2 - c));
    assert(g.neighbor_term(r2, c2, 2, 2) == phase_weight(k, r2 + 1 - r, c2 + 1 - c));
}

/// The rule turns each phase into the next one, offset by offset.
proof fn lemma_phase_rule(k: int, dr: int, dc: int)
    requires
        0 <= k < 4,
    ensures
        next_state(phase_cell(k, dr, dc), phase_count(k, dr, dc)) == phase_cell(k + 1, dr, dc),
{
}

/// One generation takes a grid that shows phase `k` to one that shows
/// phase `k + 1`.
proof fn lemma_step(g: Grid, k: int, r: int, c: int)
    requires
        g.wf(),
        0 <= k < 4,
        shows_phase(g, k, r, c),
        away_from_edges(g, r, c),
    ensures
        g.next().wf(),
        shows_phase(g.next(), k + 1, r, c),
{
    assert forall|r2: int, c2: int|
        #![trigger g.next().at(r2, c2)]
        g.next().in_bounds(r2, c2) implies g.next().at(r2, c2) == phase_cell(
        k + 1,
        r2 - r,
        c2 - c,
    ) by {
        g.lemma_next_at(r2, c2);
        lemma_count(g, k, r, c, r2, c2);
        lemma_phase_rule(k, r2 - r, c2 - c);
    }
    g.lemma_next_at(0, 0);
}

/// An empty grid with a glider stamped at `(r, c)` shows phase 0 there.
proof fn lemma_start(width: int, height: int, r: int, c: int)
    requires
        width >= 1,
        height >= 1,
    ensures
        Grid::empty(width, height).with_glider(r, c).wf(),
        shows_phase(Grid::empty(width, height).with_glider(r, c), 0, r, c),
{
    let g = Grid::empty(width, height).with_glider(r, c);
    assert(width * height >= 0) by (nonlinear_arith)
        requires
            width >= 1,
            height >= 1,
    ;
    assert forall|r2: int, c2: int|
        #![trigger g.at(r2, c2)]
        g.in_bounds(r2, c2) implies g.at(r2, c2) == phase_cell(0, r2 - r, c2 - c) by {
        lemma_index_parts(width, r2, c2);
        assert(0 <= r2 * width + c2 < width * height) by (nonlinear_arith)
            requires
                0 <= r2 < height,
                0 <= c2 < width,
        ;
    }
}

/// A glider moves: stamped at `(r, c)` on an otherwise empty grid, two rows
/// and two columns away from the edges, it is after four generations the
/// same glider stamped one row down and one column right.
pub proof fn lemma_glider_period(width: int, height: int, r: int, c: int)
    requires
        2 <= r,
        r + 3 < height,
        2 <= c,
        c + 3 < width,
    ensures
        Grid::empty(width, height).with_glider(r, c).next().next().next().next() == Grid::empty(
            width,
            height,
        ).with_glider(r + 1, c + 1),
{
    let g0 = Grid::empty(width, height).with_glider(r, c);
    let target = Grid::empty(width, height).with_glider(r + 1, c + 1);
    lemma_start(width, height, r, c);
    lemma_start(width, height, r + 1, c + 1);
    lemma_step(g0, 0, r, c);
    lemma_step(g0.next(), 1, r, c);
    lemma_step(g0.next().next(), 2, r, c);
    lemma_step(g0.next().next().next(), 3, r, c);
    let g4 = g0.next().next().next().next();
    assert forall|k: int| 0 <= k < g4.cells.len() implies g4.cells[k] == target.cells[k] by {
        lemma_flat_index(width, height, k);
        assert(g4.at(k / width, k % width) == target.at(k / width, k % width));
    }
    assert(g4.cells =~= target.cells);
}

} // verus!
