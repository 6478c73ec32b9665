use stacky_sides::board::init_state;
use stacky_sides::game::Game;
use stacky_sides::pipeline::get_ai_play;
use stacky_sides::pipeline::outcome_message;
use stacky_sides::pipeline::play_decide;
use stacky_sides::pipeline::MatchState;
use stacky_sides::pipeline::PlayError;

fn fresh_match(against_ai: bool) -> MatchState {
    let game = Game::create(42, 1_700_000_000, 10, against_ai);
    MatchState::new(game, init_state())
}

#[test]
fn ai_picks_the_first_row_with_an_open_last_column() {
    // on a board whose last column is empty in every row, the machine
    // plays row 0 of that column
    let board = init_state();
    assert_eq!(get_ai_play(&board), (0, 6));

    // rows 0 and 1 already hold the last column: row 2 is next
    let mut board = init_state();
    board[0][6] = 1;
    board[1][6] = 2;
    assert_eq!(get_ai_play(&board), (2, 6));

    // no row open: the fallback cell
    let full_last = vec![vec![0u8, 1], vec![0, 2]];
    assert_eq!(get_ai_play(&full_last), (0, 0));
}

#[test]
fn ended_game_refuses_every_move() {
    let mut m = fresh_match(false);
    // win for session 10 along row 0
    for col in 0..4 {
        let r = m.play(0, col, 1, 10, 2_000);
        assert!(r.is_ok());
    }
    assert_eq!(m.game.winner_key, Some(10));
    assert_eq!(m.game.ended_at, Some(2_000));
    let snapshots = m.boards.len();

    // every later attempt fails and appends nothing
    for _ in 0..3 {
        let r = m.play(3, 3, 2, 20, 3_000);
        assert!(matches!(r, Err(PlayError::GameAlreadyEnded)));
        assert_eq!(m.boards.len(), snapshots);
        assert_eq!(m.game.ended_at, Some(2_000));
        assert_eq!(m.game.winner_key, Some(10));
    }
}

#[test]
fn history_grows_by_one_snapshot_per_move() {
    let mut m = fresh_match(false);
    assert_eq!(m.boards.len(), 1);

    let moves = [(0usize, 0usize, 1u8), (1, 0, 2), (0, 1, 1), (1, 1, 2), (0, 2, 1)];
    for (n, (row, col, mark)) in moves.iter().enumerate() {
        m.play(*row, *col, *mark, *mark as u128, 1_000 + n as i64).unwrap();
        assert_eq!(m.boards.len(), n + 2);

        // each snapshot differs from its predecessor in exactly one cell,
        // which went from empty to the move's mark
        let prev = &m.boards[n];
        let head = &m.boards[n + 1];
        let mut changed = Vec::new();
        for i in 0..prev.len() {
            for j in 0..prev[i].len() {
                if prev[i][j] != head[i][j] {
                    changed.push((i, j, prev[i][j], head[i][j]));
                }
            }
        }
        assert_eq!(changed, vec![(*row, *col, 0u8, *mark)]);
    }

    // earlier snapshots are never rewritten: the first is still all empty
    assert!(m.boards[0].iter().all(|r| r.iter().all(|c| *c == 0)));
}

#[test]
fn out_of_bounds_moves_change_nothing() {
    let mut m = fresh_match(false);
    let r = m.play(7, 0, 1, 10, 1_000);
    assert!(matches!(r, Err(PlayError::OutOfBounds)));
    assert_eq!(m.boards.len(), 1);
    assert_eq!(m.game.ended_at, None);
}

#[test]
fn winning_move_ends_the_game_and_announces_the_mark() {
    let mut m = fresh_match(false);
    for col in 0..3 {
        assert_eq!(m.play(2, col, 2, 20, 1_000).unwrap(), false);
        assert_eq!(m.game.ended_at, None);
    }
    assert_eq!(m.play(2, 3, 2, 20, 1_234).unwrap(), true);
    assert_eq!(m.game.winner_key, Some(20));
    assert_eq!(m.game.ended_at, Some(1_234));

    // the decision for that same winning move publishes `End 2`
    let game = Game::create(42, 0, 10, false);
    let mut board = init_state();
    for col in 0..3 {
        board[2][col] = 2;
    }
    let d = play_decide(&game, &board, 2, 3, 2, 20, 1_234).unwrap();
    assert!(d.winning);
    assert_eq!(outcome_message(&d), "End 2");
}

#[test]
fn losing_move_announces_the_new_board() {
    let game = Game::create(42, 0, 10, false);
    let board = vec![vec![0u8, 0], vec![0, 0]];
    let d = play_decide(&game, &board, 0, 1, 1, 10, 99).unwrap();
    assert!(!d.winning);
    assert_eq!(outcome_message(&d), "Board [[0, 1], [0, 0]]");
    assert_eq!(d.game, game);
}
