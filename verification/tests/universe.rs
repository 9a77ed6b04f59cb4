use wasm_game_of_life::rules::next_cell;
use wasm_game_of_life::universe::valid_dimensions;
use wasm_game_of_life::Universe;

fn alive(u: &Universe, row: u32, col: u32) -> bool {
    u.get_cells().contains(u.get_index(row, col))
}

fn live_cells(u: &Universe) -> Vec<(u32, u32)> {
    let mut out = Vec::new();
    for row in 0..u.height() {
        for col in 0..u.width() {
            if alive(u, row, col) {
                out.push((row, col));
            }
        }
    }
    out
}

#[test]
fn empty_grid_is_all_dead() {
    let u = Universe::empty(5, 7);
    assert_eq!(u.width(), 5);
    assert_eq!(u.height(), 7);
    assert_eq!(u.get_cells().len(), 35);
    assert_eq!(live_cells(&u), vec![]);
}

#[test]
fn valid_dimensions_rejects_zero_and_overflow() {
    assert!(valid_dimensions(1, 1));
    assert!(valid_dimensions(64, 64));
    assert!(valid_dimensions(65535, 65537));
    assert!(valid_dimensions(u32::MAX, 1));
    assert!(!valid_dimensions(0, 4));
    assert!(!valid_dimensions(4, 0));
    assert!(!valid_dimensions(65536, 65536));
    assert!(!valid_dimensions(u32::MAX, 2));
}

#[test]
fn get_index_is_row_major() {
    let u = Universe::empty(5, 3);
    assert_eq!(u.get_index(0, 0), 0);
    assert_eq!(u.get_index(0, 4), 4);
    assert_eq!(u.get_index(1, 0), 5);
    assert_eq!(u.get_index(2, 3), 13);
}

#[test]
fn buffer_length_follows_dimensions_after_every_operation() {
    let mut u = Universe::empty(6, 4);
    assert_eq!(u.get_cells().len(), 24);
    u.toggle_cell(1, 1);
    assert_eq!(u.get_cells().len(), 24);
    u.tick();
    assert_eq!(u.get_cells().len(), 24);
    u.add_glider(0, 0);
    assert_eq!(u.get_cells().len(), 24);
    u.clear();
    assert_eq!(u.get_cells().len(), 24);
    u.set_width(9);
    assert_eq!(u.get_cells().len(), 36);
    assert_eq!(u.get_cells().len(), (u.width() * u.height()) as usize);
    u.set_height(2);
    assert_eq!(u.get_cells().len(), 18);
    assert_eq!(u.get_cells().len(), (u.width() * u.height()) as usize);
    u.tick();
    assert_eq!(u.get_cells().len(), 18);
}

#[test]
fn dead_grid_stays_dead() {
    let mut u = Universe::empty(3, 3);
    u.tick();
    assert_eq!(live_cells(&u), vec![]);
    assert!(u.get_cells().is_clear());
}

#[test]
fn lone_cell_dies() {
    for (w, h) in [(2u32, 2u32), (2, 3), (3, 2), (3, 3), (4, 4), (5, 8), (16, 9)] {
        for row in 0..h {
            for col in 0..w {
                let mut u = Universe::empty(w, h);
                u.toggle_cell(row, col);
                assert_eq!(live_cells(&u), vec![(row, col)]);
                u.tick();
                assert!(!alive(&u, row, col));
                assert_eq!(live_cells(&u), vec![]);
            }
        }
    }
}

#[test]
fn glider_moves_one_cell_diagonally_in_four_ticks() {
    let mut u = Universe::empty(8, 8);
    u.add_glider(0, 0);
    assert_eq!(live_cells(&u), vec![(0, 1), (1, 2), (2, 0), (2, 1), (2, 2)]);
    for _ in 0..4 {
        u.tick();
    }
    assert_eq!(live_cells(&u), vec![(1, 2), (2, 3), (3, 1), (3, 2), (3, 3)]);
    let mut moved = Universe::empty(8, 8);
    moved.add_glider(1, 1);
    assert_eq!(live_cells(&u), live_cells(&moved));
}

#[test]
fn glider_crosses_the_edge_and_comes_back() {
    let mut u = Universe::empty(8, 8);
    u.add_glider(0, 0);
    for step in 1..=8u32 {
        for _ in 0..4 {
            u.tick();
        }
        let mut moved = Universe::empty(8, 8);
        moved.add_glider(step % 8, step % 8);
        assert_eq!(live_cells(&u), live_cells(&moved));
    }
    assert_eq!(live_cells(&u), vec![(0, 1), (1, 2), (2, 0), (2, 1), (2, 2)]);
}

#[test]
fn glider_first_generation() {
    let mut u = Universe::empty(8, 8);
    u.add_glider(0, 0);
    u.tick();
    assert_eq!(live_cells(&u), vec![(1, 0), (1, 2), (2, 1), (2, 2), (3, 1)]);
}

#[test]
fn corners_are_neighbours_through_the_edges() {
    let mut u = Universe::empty(4, 4);
    u.set_cells(&[(0, 0), (0, 3), (3, 0), (3, 3)]);
    assert_eq!(u.live_neighbor_count(0, 0), 3);
    assert_eq!(u.live_neighbor_count(3, 3), 3);
    assert_eq!(u.live_neighbor_count(0, 1), 2);
    assert_eq!(u.live_neighbor_count(1, 1), 1);
    assert_eq!(u.live_neighbor_count(2, 2), 1);
    assert_eq!(u.live_neighbor_count(1, 2), 1);
}

#[test]
fn neighbour_count_reaches_eight() {
    let mut u = Universe::empty(3, 3);
    for row in 0..3 {
        for col in 0..3 {
            u.toggle_cell(row, col);
        }
    }
    assert_eq!(u.live_neighbor_count(1, 1), 8);
    assert_eq!(u.live_neighbor_count(0, 0), 8);
    u.toggle_cell(1, 1);
    assert_eq!(u.live_neighbor_count(1, 1), 8);
    assert_eq!(u.live_neighbor_count(0, 0), 7);
}

#[test]
fn neighbour_count_on_a_single_cell_grid() {
    let mut u = Universe::empty(1, 1);
    assert_eq!(u.live_neighbor_count(0, 0), 0);
    u.toggle_cell(0, 0);
    assert_eq!(u.live_neighbor_count(0, 0), 8);
    u.tick();
    assert!(!alive(&u, 0, 0));
}

#[test]
fn toggle_twice_restores_the_grid() {
    let mut u = Universe::empty(6, 5);
    u.add_glider(1, 2);
    let before = live_cells(&u);
    for (row, col) in [(0u32, 0u32), (1, 3), (4, 5), (3, 4)] {
        let was = alive(&u, row, col);
        u.toggle_cell(row, col);
        assert_eq!(alive(&u, row, col), !was);
        u.toggle_cell(row, col);
        assert_eq!(alive(&u, row, col), was);
        assert_eq!(live_cells(&u), before);
    }
}

#[test]
fn toggle_changes_one_cell_only() {
    let mut u = Universe::empty(4, 3);
    u.toggle_cell(2, 1);
    assert_eq!(live_cells(&u), vec![(2, 1)]);
    u.toggle_cell(0, 3);
    assert_eq!(live_cells(&u), vec![(0, 3), (2, 1)]);
    u.toggle_cell(2, 1);
    assert_eq!(live_cells(&u), vec![(0, 3)]);
}

#[test]
fn set_width_resets_every_cell() {
    let mut u = Universe::empty(8, 8);
    u.add_glider(0, 0);
    u.tick();
    u.set_width(5);
    assert_eq!(u.width(), 5);
    assert_eq!(u.height(), 8);
    assert_eq!(u.get_cells().len(), 40);
    assert_eq!(live_cells(&u), vec![]);
}

#[test]
fn set_height_resets_every_cell() {
    let mut u = Universe::empty(8, 8);
    u.add_pulsar(0, 0);
    u.set_height(11);
    assert_eq!(u.width(), 8);
    assert_eq!(u.height(), 11);
    assert_eq!(u.get_cells().len(), 88);
    assert_eq!(live_cells(&u), vec![]);
}

#[test]
fn blinker_alternates() {
    let mut u = Universe::empty(5, 5);
    u.set_cells(&[(2, 1), (2, 2), (2, 3)]);
    let flat = vec![(2, 1), (2, 2), (2, 3)];
    let upright = vec![(1, 2), (2, 2), (3, 2)];
    for _ in 0..10 {
        assert_eq!(live_cells(&u), flat);
        u.tick();
        assert_eq!(live_cells(&u), upright);
        u.tick();
    }
    assert_eq!(live_cells(&u), flat);
}

#[test]
fn block_is_still() {
    let mut u = Universe::empty(4, 4);
    u.set_cells(&[(1, 1), (1, 2), (2, 1), (2, 2)]);
    let block = live_cells(&u);
    u.tick();
    assert_eq!(live_cells(&u), block);
    u.tick();
    assert_eq!(live_cells(&u), block);
}

#[test]
fn rule_by_neighbour_count() {
    // The centre of a 5 by 5 grid with n of its neighbours alive.
    let ring = [(1u32, 1u32), (1, 2), (1, 3), (2, 1), (2, 3), (3, 1), (3, 2), (3, 3)];
    for n in 0..=8usize {
        for centre in [false, true] {
            let mut u = Universe::empty(5, 5);
            u.set_cells(&ring[..n]);
            if centre {
                u.toggle_cell(2, 2);
            }
            assert_eq!(u.live_neighbor_count(2, 2) as usize, n);
            u.tick();
            let expected = if centre { n == 2 || n == 3 } else { n == 3 };
            assert_eq!(alive(&u, 2, 2), expected);
        }
    }
}

#[test]
fn clear_kills_every_cell() {
    let mut u = Universe::empty(16, 16);
    u.add_pulsar(1, 1);
    assert_eq!(live_cells(&u).len(), 48);
    u.clear();
    assert_eq!(live_cells(&u), vec![]);
    assert_eq!(u.width(), 16);
    assert_eq!(u.height(), 16);
    assert_eq!(u.get_cells().len(), 256);
}

#[test]
fn set_cells_adds_to_what_is_there() {
    let mut u = Universe::empty(4, 4);
    u.set_cells(&[(0, 1), (3, 3)]);
    assert_eq!(live_cells(&u), vec![(0, 1), (3, 3)]);
    u.set_cells(&[(0, 1), (2, 0), (2, 0)]);
    assert_eq!(live_cells(&u), vec![(0, 1), (2, 0), (3, 3)]);
    u.set_cells(&[]);
    assert_eq!(live_cells(&u), vec![(0, 1), (2, 0), (3, 3)]);
}

#[test]
fn shuffle_takes_each_draw() {
    let mut u = Universe::empty(3, 2);
    u.toggle_cell(0, 0);
    u.shuffle(&[false, true, true, false, false, true]);
    assert_eq!(live_cells(&u), vec![(0, 1), (0, 2), (1, 2)]);
    u.shuffle(&[false; 6]);
    assert_eq!(live_cells(&u), vec![]);
    u.shuffle(&[true; 6]);
    assert_eq!(live_cells(&u).len(), 6);
}

#[test]
fn random_builds_from_draws() {
    let u = Universe::random(2, 3, &[true, false, false, false, true, true]);
    assert_eq!(u.width(), 2);
    assert_eq!(u.height(), 3);
    assert_eq!(live_cells(&u), vec![(0, 0), (2, 0), (2, 1)]);
    let none = Universe::random(4, 4, &[false; 16]);
    assert_eq!(live_cells(&none), vec![]);
    let all = Universe::random(4, 4, &[true; 16]);
    assert_eq!(live_cells(&all).len(), 16);
}

#[test]
fn tick_after_shuffle_reads_the_live_buffer() {
    let mut u = Universe::empty(5, 5);
    u.tick();
    let mut draws = [false; 25];
    draws[11] = true;
    draws[12] = true;
    draws[13] = true;
    u.shuffle(&draws);
    u.tick();
    assert_eq!(live_cells(&u), vec![(1, 2), (2, 2), (3, 2)]);
}

#[test]
fn packed_words_hold_the_cells() {
    let mut u = Universe::empty(8, 5);
    assert_eq!(u.cells(), &[0u32, 0]);
    u.set_cells(&[(0, 0), (0, 3), (3, 7), (4, 0), (4, 7)]);
    assert_eq!(u.cells(), &[(1u32 << 0) | (1 << 3) | (1 << 31), (1 << 0) | (1 << 7)]);
    u.tick();
    let words = u.cells();
    assert_eq!(words.len(), 2);
    for row in 0..5 {
        for col in 0..8 {
            let k = u.get_index(row, col);
            assert_eq!(words[k / 32] & (1 << (k % 32)) != 0, alive(&u, row, col));
        }
    }
}

#[test]
fn rule_table() {
    for n in 0..=8u8 {
        assert_eq!(next_cell(true, n), n == 2 || n == 3);
        assert_eq!(next_cell(false, n), n == 3);
    }
    assert!(!next_cell(true, 1));
    assert!(next_cell(true, 2));
    assert!(next_cell(true, 3));
    assert!(!next_cell(true, 4));
    assert!(!next_cell(false, 2));
    assert!(next_cell(false, 3));
    assert!(!next_cell(false, 4));
}

#[test]
fn blinker_alternates_for_every_count() {
    let mut u = Universe::empty(5, 5);
    u.set_cells(&[(2, 1), (2, 2), (2, 3)]);
    assert_eq!(u.get_cells().ones().collect::<Vec<usize>>(), vec![11, 12, 13]);
    for k in 1..=64u32 {
        u.tick();
        let ones: Vec<usize> = u.get_cells().ones().collect();
        if k % 2 == 0 {
            assert_eq!(ones, vec![11, 12, 13]);
        } else {
            assert_eq!(ones, vec![7, 12, 17]);
        }
    }
}
