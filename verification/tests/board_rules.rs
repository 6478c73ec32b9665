use stacky_sides::board::apply_move;
use stacky_sides::board::init_state;
use stacky_sides::pipeline::PlayError;
use stacky_sides::wins::is_winning_move;

#[test]
fn initial_board_is_empty_seven_by_seven() {
    let board = init_state();
    assert_eq!(board.len(), 7);
    for row in &board {
        assert_eq!(row.len(), 7);
        for cell in row {
            assert_eq!(*cell, 0);
        }
    }
}

#[test]
fn apply_move_sets_exactly_one_cell() {
    let board = init_state();
    let next = apply_move(&board, 2, 5, 1).unwrap();
    for i in 0..7 {
        for j in 0..7 {
            if (i, j) == (2, 5) {
                assert_eq!(next[i][j], 1);
            } else {
                assert_eq!(next[i][j], 0);
            }
        }
    }
    // the input board is untouched
    assert_eq!(board[2][5], 0);
}

#[test]
fn apply_move_out_of_bounds_is_refused() {
    let board = init_state();
    assert!(matches!(apply_move(&board, 7, 0, 1), Err(PlayError::OutOfBounds)));
    assert!(matches!(apply_move(&board, 0, 7, 1), Err(PlayError::OutOfBounds)));
    assert!(matches!(apply_move(&board, 6, 6, 2), Ok(_)));
}

#[test]
fn fourth_mark_in_a_row_wins() {
    let mut board = init_state();
    let cells = [(0usize, 0usize), (0, 1), (0, 2), (0, 3)];
    for (k, (row, col)) in cells.iter().enumerate() {
        board = apply_move(&board, *row, *col, 1).unwrap();
        let won = is_winning_move(*row, *col, &board);
        if k < 3 {
            assert!(!won);
        } else {
            assert!(won);
        }
    }
}

#[test]
fn vertical_and_diagonal_runs_win() {
    // vertical: four marks down column 2
    let mut board = init_state();
    for row in 0..4 {
        board = apply_move(&board, row, 2, 2).unwrap();
    }
    assert!(is_winning_move(3, 2, &board));
    assert!(is_winning_move(0, 2, &board));

    // "\" diagonal
    let mut board = init_state();
    for k in 0..4 {
        board = apply_move(&board, k, k, 1).unwrap();
    }
    assert!(is_winning_move(2, 2, &board));

    // "/" diagonal
    let mut board = init_state();
    for k in 0..4 {
        board = apply_move(&board, 3 - k, k, 1).unwrap();
    }
    assert!(is_winning_move(3, 0, &board));
}

#[test]
fn three_in_a_row_does_not_win() {
    let mut board = init_state();
    for col in 0..3 {
        board = apply_move(&board, 4, col, 2).unwrap();
    }
    assert!(!is_winning_move(4, 0, &board));
    assert!(!is_winning_move(4, 1, &board));
    assert!(!is_winning_move(4, 2, &board));
}

#[test]
fn run_of_another_mark_does_not_win() {
    // three 1s then a 2: the 2 is not part of any run of four
    let mut board = init_state();
    for col in 0..3 {
        board = apply_move(&board, 6, col, 1).unwrap();
    }
    board = apply_move(&board, 6, 3, 2).unwrap();
    assert!(!is_winning_move(6, 3, &board));
}
