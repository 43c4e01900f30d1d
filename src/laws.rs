use vstd::prelude::*;
use vstd::arithmetic::div_mod::{lemma_mod_self_0, lemma_small_mod};
use crate::grid::{next_state, wrapped, Grid};

verus! {

/// Two generations in a row: each cell of the first follows the rule from
/// the starting grid alone, and each cell of the second from the first
/// alone, so no cell's update ever reads a neighbour that was already
/// updated in the same step.
pub proof fn lemma_two_generations(g: Grid)
    requires
        g.wf(),
    ensures
        g.next().wf(),
        g.next().next().wf(),
        forall|r: int, c: int|
            #![trigger g.next().at(r, c)]
            g.in_bounds(r, c) ==> g.next().at(r, c) == next_state(g.at(r, c), g.neighbor_count(r, c)),
        forall|r: int, c: int|
            #![trigger g.next().next().at(r, c)]
            g.in_bounds(r, c) ==> g.next().next().at(r, c) == next_state(
                g.next().at(r, c),
                g.next().neighbor_count(r, c),
            ),
{
    assert forall|r: int, c: int| #![trigger g.next().at(r, c)] g.in_bounds(r, c) implies g.next().at(
        r,
        c,
    ) == next_state(g.at(r, c), g.neighbor_count(r, c)) by {
        g.lemma_next_at(r, c);
    }
    assert forall|r: int, c: int|
        #![trigger g.next().next().at(r, c)]
        g.in_bounds(r, c) implies g.next().next().at(r, c) == next_state(
        g.next().at(r, c),
        g.next().neighbor_count(r, c),
    ) by {
        g.lemma_next_at(r, c);
        g.next().lemma_next_at(r, c);
    }
}

/// The grid wraps around: a cell of the top row and the cell below it in
/// the bottom row are neighbours of each other, and so are a cell of the
/// first column and the cell beside it in the last column.
pub proof fn lemma_wraps_around(g: Grid, r: int, c: int)
    requires
        g.wf(),
        g.in_bounds(r, c),
    ensures
        g.is_neighbor(0, c, g.height - 1, c),
        g.is_neighbor(g.height - 1, c, 0, c),
        g.is_neighbor(r, 0, r, g.width - 1),
        g.is_neighbor(r, g.width - 1, r, 0),
{
    let (w, h) = (g.width, g.height);
    lemma_small_mod((h - 1) as nat, h as nat);
    lemma_small_mod((w - 1) as nat, w as nat);
    lemma_small_mod(r as nat, h as nat);
    lemma_small_mod(c as nat, w as nat);
    lemma_mod_self_0(h);
    lemma_mod_self_0(w);
    assert(wrapped(0, 0, h) == h - 1);
    assert(wrapped(c, 1, w) == c);
    assert(wrapped(h - 1, 2, h) == 0);
    assert(wrapped(r, 1, h) == r);
    assert(wrapped(0, 0, w) == w - 1);
    assert(wrapped(w - 1, 2, w) == 0);
}

/// Clearing a grid that was just cleared changes nothing.
pub proof fn lemma_clear_twice(g: Grid)
    ensures
        g.cleared().cleared() == g.cleared(),
{
    assert(g.cleared().cleared().cells =~= g.cleared().cells);
}

} // verus!
