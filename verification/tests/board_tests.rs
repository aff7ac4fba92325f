use xo_rs::board::Board;
use xo_rs::marker::{GameError, Marker, State};

fn board_from(rows: &[&str]) -> Board {
    let mut b = Board::new(rows.len());
    for (r, row) in rows.iter().enumerate() {
        for (c, ch) in row.chars().enumerate() {
            match ch {
                'X' => b.place(r, c, Marker::X).unwrap(),
                'O' => b.place(r, c, Marker::O).unwrap(),
                _ => {}
            }
        }
    }
    b
}

#[test]
fn size_ok_accepts_what_can_be_allocated() {
    assert!(!Board::size_ok(0));
    assert!(Board::size_ok(1));
    assert!(Board::size_ok(3));
    assert!(Board::size_ok(1000));
    assert!(!Board::size_ok(usize::MAX));
    assert!(!Board::size_ok(1usize << ((usize::BITS / 2) as usize)));
}

#[test]
fn new_board_is_numbered_like_a_keypad() {
    let b = Board::new(3);
    let expected = [[7, 8, 9], [4, 5, 6], [1, 2, 3]];
    for r in 0..3 {
        for c in 0..3 {
            assert_eq!(b.get(r, c), Ok(Marker::Empty(expected[r][c])));
        }
    }
}

#[test]
fn new_board_of_side_four_is_numbered_from_the_bottom_left() {
    let b = Board::new(4);
    assert_eq!(b.get(3, 0), Ok(Marker::Empty(1)));
    assert_eq!(b.get(3, 3), Ok(Marker::Empty(4)));
    assert_eq!(b.get(2, 0), Ok(Marker::Empty(5)));
    assert_eq!(b.get(0, 0), Ok(Marker::Empty(13)));
    assert_eq!(b.get(0, 3), Ok(Marker::Empty(16)));
}

#[test]
fn sizes_follow_the_side() {
    for n in 1..7usize {
        let b = Board::new(n);
        assert_eq!(b.nrows(), n);
        assert_eq!(b.ncols(), n);
        assert_eq!(b.size(), n * n);
    }
}

#[test]
fn width_is_the_printed_length_of_the_largest_ordinal() {
    assert_eq!(Board::new(1).width(), 1);
    assert_eq!(Board::new(3).width(), 1);
    assert_eq!(Board::new(4).width(), 2);
    assert_eq!(Board::new(9).width(), 2);
    assert_eq!(Board::new(10).width(), 3);
    assert_eq!(Board::new(32).width(), 4);
}

#[test]
fn fresh_board_goes_on_and_is_all_free() {
    for n in 1..8usize {
        let b = Board::new(n);
        assert_eq!(b.get_state(), State::Incomplete);
        assert_eq!(b.get_blanks().len(), n * n);
        assert!(!b.check_win(Marker::X));
        assert!(!b.check_win(Marker::O));
    }
}

#[test]
fn get_outside_the_grid_is_out_of_bounds() {
    let b = Board::new(3);
    assert_eq!(b.get(3, 0), Err(GameError::OutOfBounds));
    assert_eq!(b.get(0, 3), Err(GameError::OutOfBounds));
    assert_eq!(b.get(usize::MAX, usize::MAX), Err(GameError::OutOfBounds));
}

#[test]
fn place_overwrites_a_free_cell_only() {
    let mut b = Board::new(3);
    assert_eq!(b.place(1, 1, Marker::X), Ok(()));
    assert_eq!(b.get(1, 1), Ok(Marker::X));
    assert_eq!(b.place(1, 1, Marker::O), Err(GameError::CellOccupied));
    assert_eq!(b.get(1, 1), Ok(Marker::X));
    assert_eq!(b.place(1, 1, Marker::X), Err(GameError::CellOccupied));
}

#[test]
fn place_outside_the_grid_is_out_of_bounds() {
    let mut b = Board::new(3);
    assert_eq!(b.place(3, 0, Marker::X), Err(GameError::OutOfBounds));
    assert_eq!(b.place(0, 3, Marker::X), Err(GameError::OutOfBounds));
    assert_eq!(b.place(7, 9, Marker::O), Err(GameError::OutOfBounds));
    assert_eq!(b.get_blanks().len(), 9);
}

#[test]
fn place_leaves_the_other_cells_alone() {
    let mut b = Board::new(3);
    b.place(0, 2, Marker::O).unwrap();
    let expected = [[7, 8, 0], [4, 5, 6], [1, 2, 3]];
    for r in 0..3 {
        for c in 0..3 {
            if (r, c) == (0, 2) {
                assert_eq!(b.get(r, c), Ok(Marker::O));
            } else {
                assert_eq!(b.get(r, c), Ok(Marker::Empty(expected[r][c])));
            }
        }
    }
}

#[test]
fn blanks_come_row_by_row() {
    let b = board_from(&["X_O", "___", "_XO"]);
    assert_eq!(b.get_blanks(), vec![(0, 1), (1, 0), (1, 1), (1, 2), (2, 0)]);
}

#[test]
fn blanks_of_a_full_board_are_none() {
    let b = board_from(&["XOX", "XOO", "OXX"]);
    assert_eq!(b.get_blanks(), vec![]);
}

#[test]
fn check_win_sees_every_row() {
    for r in 0..3 {
        let mut b = Board::new(3);
        for c in 0..3 {
            b.place(r, c, Marker::X).unwrap();
        }
        assert!(b.check_win(Marker::X));
        assert!(!b.check_win(Marker::O));
        assert_eq!(b.get_state(), State::WinX);
    }
}

#[test]
fn check_win_sees_every_column() {
    for c in 0..3 {
        let mut b = Board::new(3);
        for r in 0..3 {
            b.place(r, c, Marker::O).unwrap();
        }
        assert!(b.check_win(Marker::O));
        assert!(!b.check_win(Marker::X));
        assert_eq!(b.get_state(), State::WinO);
    }
}

#[test]
fn check_win_sees_both_diagonals() {
    let main = board_from(&["X__", "_X_", "__X"]);
    assert!(main.check_win(Marker::X));
    let anti = board_from(&["__O", "_O_", "O__"]);
    assert!(anti.check_win(Marker::O));
    assert!(!anti.check_win(Marker::X));
}

#[test]
fn check_win_wants_the_whole_line() {
    let b = board_from(&["XX_", "OO_", "X_O"]);
    assert!(!b.check_win(Marker::X));
    assert!(!b.check_win(Marker::O));
    assert_eq!(b.get_state(), State::Incomplete);
}

#[test]
fn check_win_on_a_larger_board_wants_four() {
    let three = board_from(&["XXX_", "____", "____", "____"]);
    assert!(!three.check_win(Marker::X));
    let four = board_from(&["____", "OOOO", "____", "____"]);
    assert!(four.check_win(Marker::O));
    let diag = board_from(&["X___", "_X__", "__X_", "___X"]);
    assert!(diag.check_win(Marker::X));
    let anti = board_from(&["___O", "__O_", "_O__", "O___"]);
    assert!(anti.check_win(Marker::O));
    let column = board_from(&["__X_", "__X_", "__X_", "__X_"]);
    assert!(column.check_win(Marker::X));
}

#[test]
fn check_win_for_a_free_cell_finds_no_line() {
    let b = Board::new(3);
    assert!(!b.check_win(Marker::Empty(5)));
}

#[test]
fn state_is_a_draw_on_a_full_board_without_a_line() {
    let b = board_from(&["XOX", "XOO", "OXX"]);
    assert!(!b.check_win(Marker::X));
    assert!(!b.check_win(Marker::O));
    assert_eq!(b.get_state(), State::Draw);
}

#[test]
fn state_prefers_a_win_to_a_draw_on_a_full_board() {
    let b = board_from(&["XXX", "OOX", "XOO"]);
    assert_eq!(b.get_state(), State::WinX);
}

#[test]
fn state_looks_for_x_before_o() {
    let b = board_from(&["XXX", "OOO", "___"]);
    assert!(b.check_win(Marker::X));
    assert!(b.check_win(Marker::O));
    assert_eq!(b.get_state(), State::WinX);
    let c = board_from(&["OOO", "___", "XXX"]);
    assert_eq!(c.get_state(), State::WinX);
}

#[test]
fn exchanging_the_sides_exchanges_the_state() {
    let rows = ["XXX", "OO_", "_O_"];
    let swapped = ["OOO", "XX_", "_X_"];
    let b = board_from(&rows);
    let s = board_from(&swapped);
    assert_eq!(b.get_state(), State::WinX);
    assert_eq!(s.get_state(), State::WinO);
    assert_eq!(b.check_win(Marker::X), s.check_win(Marker::O));
    assert_eq!(b.check_win(Marker::O), s.check_win(Marker::X));
}

#[test]
fn exchanging_the_sides_keeps_a_draw_and_a_game_that_goes_on() {
    assert_eq!(board_from(&["XOX", "XOO", "OXX"]).get_state(), State::Draw);
    assert_eq!(board_from(&["OXO", "OXX", "XOO"]).get_state(), State::Draw);
    assert_eq!(board_from(&["XO_", "___", "___"]).get_state(), State::Incomplete);
    assert_eq!(board_from(&["OX_", "___", "___"]).get_state(), State::Incomplete);
}

#[test]
fn clear_frees_and_numbers_every_cell() {
    let mut b = board_from(&["XOX", "XOO", "OXX"]);
    b.clear();
    let fresh = Board::new(3);
    for r in 0..3 {
        for c in 0..3 {
            assert_eq!(b.get(r, c), fresh.get(r, c));
        }
    }
    assert_eq!(b.get_state(), State::Incomplete);
    assert_eq!(b.get_blanks().len(), 9);
    assert_eq!(b.width(), 1);
}

#[test]
fn clone_is_a_board_of_its_own() {
    let mut b = Board::new(3);
    b.place(0, 0, Marker::X).unwrap();
    let mut c = b.clone();
    c.place(1, 1, Marker::O).unwrap();
    assert_eq!(b.get(1, 1), Ok(Marker::Empty(5)));
    assert_eq!(c.get(1, 1), Ok(Marker::O));
    assert_eq!(c.get(0, 0), Ok(Marker::X));
    assert_eq!(c.width(), b.width());
}

#[test]
fn enumerate_to_index_reads_row_by_row() {
    let b = Board::new(3);
    assert_eq!(b.enumerate_to_index(0), (0, 0));
    assert_eq!(b.enumerate_to_index(2), (0, 2));
    assert_eq!(b.enumerate_to_index(3), (1, 0));
    assert_eq!(b.enumerate_to_index(8), (2, 2));
    assert_eq!(b.enumerate_to_index(9), (3, 0));
}

#[test]
fn input_to_index_follows_the_keypad() {
    let b = Board::new(3);
    assert_eq!(b.input_to_index(1), (2, 0));
    assert_eq!(b.input_to_index(3), (2, 2));
    assert_eq!(b.input_to_index(5), (1, 1));
    assert_eq!(b.input_to_index(7), (0, 0));
    assert_eq!(b.input_to_index(9), (0, 2));
}

#[test]
fn index_to_input_follows_the_keypad() {
    let b = Board::new(3);
    assert_eq!(b.index_to_input(2, 0), 1);
    assert_eq!(b.index_to_input(1, 1), 5);
    assert_eq!(b.index_to_input(0, 2), 9);
}

#[test]
fn ordinal_and_cell_lead_back_to_each_other() {
    for n in 1..9usize {
        let b = Board::new(n);
        for label in 1..=n * n {
            let (r, c) = b.input_to_index(label);
            assert!(r < n && c < n);
            assert_eq!(b.index_to_input(r, c), label);
            assert_eq!(b.get(r, c), Ok(Marker::Empty(label)));
        }
        for r in 0..n {
            for c in 0..n {
                assert_eq!(b.input_to_index(b.index_to_input(r, c)), (r, c));
            }
        }
    }
}
