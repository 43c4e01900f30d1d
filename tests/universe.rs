use game_of_life::{Cell, GridError, Universe};

fn dead_universe(width: u32, height: u32) -> Universe {
    let mut u = Universe::new(&vec![false; 64 * 64]);
    u.set_width(width);
    u.set_height(height);
    u
}

fn alive_positions(u: &Universe) -> Vec<(u32, u32)> {
    let mut out = Vec::new();
    for row in 0..u.height() {
        for col in 0..u.width() {
            if u.get_cells()[(row * u.width() + col) as usize] == Cell::Alive {
                out.push((row, col));
            }
        }
    }
    out
}

#[test]
fn cell_toggle_flips_both_ways() {
    let mut c = Cell::Dead;
    c.toggle();
    assert_eq!(c, Cell::Alive);
    c.toggle();
    assert_eq!(c, Cell::Dead);
}

#[test]
fn new_follows_the_flags() {
    let flags: Vec<bool> = (0..64 * 64).map(|k| k % 3 == 0).collect();
    let u = Universe::new(&flags);
    assert_eq!(u.width(), 64);
    assert_eq!(u.height(), 64);
    assert_eq!(u.get_cells().len(), 4096);
    for (k, cell) in u.get_cells().iter().enumerate() {
        let expected = if k % 3 == 0 { Cell::Alive } else { Cell::Dead };
        assert_eq!(*cell, expected);
    }
}

#[test]
fn blinker_returns_after_two_ticks() {
    let mut u = dead_universe(5, 5);
    u.set_cells(&[(2, 1), (2, 2), (2, 3)]).unwrap();
    u.tick();
    assert_eq!(alive_positions(&u), vec![(1, 2), (2, 2), (3, 2)]);
    u.tick();
    assert_eq!(alive_positions(&u), vec![(2, 1), (2, 2), (2, 3)]);
}

#[test]
fn rows_wrap_around() {
    let mut u = dead_universe(5, 5);
    u.set_cells(&[(4, 2), (0, 2), (1, 2)]).unwrap();
    u.tick();
    assert_eq!(alive_positions(&u), vec![(0, 1), (0, 2), (0, 3)]);
}

#[test]
fn columns_wrap_around() {
    let mut u = dead_universe(5, 5);
    u.set_cells(&[(2, 4), (2, 0), (2, 1)]).unwrap();
    u.tick();
    assert_eq!(alive_positions(&u), vec![(1, 0), (2, 0), (3, 0)]);
}

#[test]
fn corner_neighbours_wrap_both_ways() {
    let mut u = dead_universe(6, 6);
    u.set_cells(&[(5, 5), (5, 0), (0, 5)]).unwrap();
    u.tick();
    assert_eq!(alive_positions(&u), vec![(0, 0), (0, 5), (5, 0), (5, 5)]);
}

#[test]
fn rule_underpopulation_overpopulation_birth() {
    let mut lone = dead_universe(6, 6);
    lone.set_cells(&[(2, 2)]).unwrap();
    lone.tick();
    assert!(alive_positions(&lone).is_empty());

    // (2, 2) has four live neighbours and dies; (1, 2) and (3, 2) each have three.
    let mut crowded = dead_universe(6, 6);
    crowded.set_cells(&[(2, 2), (1, 1), (1, 3), (3, 1), (3, 3)]).unwrap();
    crowded.tick();
    assert_eq!(crowded.get_cells()[2 * 6 + 2], Cell::Dead);
    assert_eq!(crowded.get_cells()[1 * 6 + 2], Cell::Alive);
    assert_eq!(crowded.get_cells()[3 * 6 + 2], Cell::Alive);
}

#[test]
fn clear_twice_equals_clear_once() {
    let mut u = Universe::new(&vec![true; 64 * 64]);
    u.clear();
    let once: Vec<Cell> = u.get_cells().to_vec();
    u.clear();
    assert_eq!(u.get_cells(), &once[..]);
    assert!(once.iter().all(|c| *c == Cell::Dead));
    assert_eq!(u.width(), 64);
    assert_eq!(u.height(), 64);
}

#[test]
fn glider_moves_one_cell_diagonally_in_four_ticks() {
    let mut u = dead_universe(8, 8);
    u.insert_glider(1, 1).unwrap();
    for _ in 0..4 {
        u.tick();
    }
    let mut expected = dead_universe(8, 8);
    expected.insert_glider(2, 2).unwrap();
    assert_eq!(u.get_cells(), expected.get_cells());
    assert_eq!(alive_positions(&u), vec![(1, 2), (2, 3), (3, 1), (3, 2), (3, 3)]);
}

#[test]
fn glider_moves_from_another_place() {
    let mut u = dead_universe(12, 10);
    u.insert_glider(4, 6).unwrap();
    for _ in 0..4 {
        u.tick();
    }
    let mut expected = dead_universe(12, 10);
    expected.insert_glider(5, 7).unwrap();
    assert_eq!(u.get_cells(), expected.get_cells());
}

#[test]
fn block_is_a_still_life() {
    let mut u = dead_universe(8, 8);
    u.set_cells(&[(1, 1), (1, 2), (2, 1), (2, 2)]).unwrap();
    let before: Vec<Cell> = u.get_cells().to_vec();
    u.tick();
    assert_eq!(u.get_cells(), &before[..]);
    u.tick();
    assert_eq!(u.get_cells(), &before[..]);
}

#[test]
fn set_width_clears_and_resizes() {
    let mut u = Universe::new(&vec![true; 64 * 64]);
    u.set_width(10);
    assert_eq!(u.width(), 10);
    assert_eq!(u.height(), 64);
    assert_eq!(u.get_cells().len(), 10 * 64);
    assert!(u.get_cells().iter().all(|c| *c == Cell::Dead));
}

#[test]
fn set_height_clears_and_resizes() {
    let mut u = dead_universe(8, 8);
    u.insert_glider(3, 3).unwrap();
    u.set_height(5);
    assert_eq!(u.width(), 8);
    assert_eq!(u.height(), 5);
    assert_eq!(u.get_cells().len(), 8 * 5);
    assert!(u.get_cells().iter().all(|c| *c == Cell::Dead));
}

#[test]
fn toggle_cell_flips_one_cell() {
    let mut u = dead_universe(4, 3);
    assert_eq!(u.toggle_cell(2, 3), Ok(()));
    assert_eq!(alive_positions(&u), vec![(2, 3)]);
    assert_eq!(u.toggle_cell(2, 3), Ok(()));
    assert!(alive_positions(&u).is_empty());
}

#[test]
fn toggle_cell_out_of_bounds_is_refused() {
    for (w, h) in [(1u32, 1u32), (4, 3), (3, 4), (8, 8)] {
        let mut u = dead_universe(w, h);
        u.toggle_cell(0, 0).unwrap();
        let before: Vec<Cell> = u.get_cells().to_vec();
        assert_eq!(u.toggle_cell(h, 0), Err(GridError::OutOfBounds { row: h, col: 0 }));
        assert_eq!(u.toggle_cell(0, w), Err(GridError::OutOfBounds { row: 0, col: w }));
        assert_eq!(u.get_cells(), &before[..]);
    }
}

#[test]
fn set_cells_names_first_bad_pair_and_changes_nothing() {
    let mut u = dead_universe(4, 4);
    let r = u.set_cells(&[(0, 0), (4, 1), (1, 9), (2, 2)]);
    assert_eq!(r, Err(GridError::OutOfBounds { row: 4, col: 1 }));
    assert!(alive_positions(&u).is_empty());
}

#[test]
fn set_cells_with_repeats_and_empty_list() {
    let mut u = dead_universe(4, 4);
    assert_eq!(u.set_cells(&[]), Ok(()));
    assert!(alive_positions(&u).is_empty());
    assert_eq!(u.set_cells(&[(3, 3), (0, 1), (3, 3)]), Ok(()));
    assert_eq!(alive_positions(&u), vec![(0, 1), (3, 3)]);
}

#[test]
fn insert_glider_overwrites_its_box() {
    let mut u = Universe::new(&vec![true; 64 * 64]);
    u.set_width(5);
    u.set_height(5);
    u.set_cells(&[(0, 0), (0, 1), (1, 0), (1, 1), (2, 2), (3, 3), (4, 4)]).unwrap();
    u.insert_glider(2, 2).unwrap();
    assert_eq!(
        alive_positions(&u),
        vec![(0, 0), (0, 1), (1, 0), (1, 2), (2, 3), (3, 1), (3, 2), (3, 3), (4, 4)]
    );
}

#[test]
fn insert_glider_outside_is_refused() {
    let mut u = dead_universe(8, 6);
    assert_eq!(u.insert_glider(0, 3), Err(GridError::OutOfBounds { row: 0, col: 3 }));
    assert_eq!(u.insert_glider(3, 0), Err(GridError::OutOfBounds { row: 3, col: 0 }));
    assert_eq!(u.insert_glider(5, 3), Err(GridError::OutOfBounds { row: 5, col: 3 }));
    assert_eq!(u.insert_glider(3, 7), Err(GridError::OutOfBounds { row: 3, col: 7 }));
    assert!(alive_positions(&u).is_empty());
    assert_eq!(u.insert_glider(4, 6), Ok(()));
}

#[test]
fn render_shows_rows_with_glyphs() {
    let mut u = dead_universe(3, 2);
    u.toggle_cell(0, 1).unwrap();
    u.toggle_cell(1, 2).unwrap();
    assert_eq!(u.render(), "◻◼◻\n◻◻◼\n");
}

#[test]
fn render_of_single_dead_cell() {
    let u = dead_universe(1, 1);
    assert_eq!(u.render(), "◻\n");
}
