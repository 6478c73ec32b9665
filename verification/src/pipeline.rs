//! The write path of one move: re-read the authoritative state, validate,
//! append the new snapshot, evaluate for a win, make the aggregate's
//! terminal transition, and publish the outcome on the match's bus.
//!
//! The decision itself is the pure `play_decide`; `MatchState` is the
//! in-memory model of the authoritative state the durable repository
//! holds, against which the pipeline's laws are stated.
use vstd::prelude::*;

use crate::board::apply_move;
use crate::board::grid_view;
use crate::board::grid_wf;
use crate::board::in_grid;
use crate::board::lemma_apply_preserves_wf;
use crate::board::lemma_rows_len;
use crate::board::spec_apply;
use crate::board::EMPTY;
use crate::game::Game;
use crate::game::SessionId;
use crate::message::board_msg_chars;
use crate::message::encode_board;
use crate::message::encode_end;
use crate::message::end_msg_chars;
use crate::wins::is_win;
use crate::wins::is_winning_move;
use tokio::sync::broadcast::Sender;

verus! {

/// Why a move was refused, after the error taxonomy of the session core.
/// `Persist` stands for a repository failure reported by the storage layer.
#[derive(Clone, Copy, Debug, PartialEq, Eq, Structural)]
pub enum PlayError {
    GameNotFound,
    GameAlreadyEnded,
    OutOfBounds,
    Persist,
}

/// Everything the pipeline decides about one accepted move: the new
/// snapshot, whether it won, the mark that played, and the aggregate as it
/// must now be persisted.
pub struct PlayDecision {
    pub board: Vec<Vec<u8>>,
    pub winning: bool,
    pub mark: u8,
    pub game: Game,
}

/// What an accepted move decides, given the aggregate and the most recent
/// snapshot it was played against.
pub open spec fn decision_ok(
    d: PlayDecision,
    game: Game,
    g: Seq<Seq<u8>>,
    row: int,
    col: int,
    mark: u8,
    session_id: SessionId,
    now: i64,
) -> bool {
    &&& grid_view(&d.board) == spec_apply(g, row, col, mark)
    &&& d.winning == is_win(spec_apply(g, row, col, mark), row, col)
    &&& d.mark == mark
    &&& d.game == (if is_win(spec_apply(g, row, col, mark), row, col) {
        game.spec_mark_ended(session_id, now)
    } else {
        game
    })
}

/// Decides one move attempt: an ended game refuses it, a cell outside the
/// grid refuses it, and otherwise the new snapshot is the old one with the
/// mark placed, winning exactly when the placed cell completes a run of
/// four, in which case the aggregate takes its terminal transition.
pub fn play_decide(
    game: &Game,
    board: &Vec<Vec<u8>>,
    row: usize,
    col: usize,
    mark: u8,
    session_id: SessionId,
    now: i64,
) -> (r: Result<PlayDecision, PlayError>)
    requires
        game.wf(),
        grid_wf(grid_view(board)),
        mark == 1 || mark == 2,
    ensures
        r is Ok <==> (game.ended_at is None && in_grid(grid_view(board), row as int, col as int)),
        game.ended_at is Some ==> (r matches Err(e) && e == PlayError::GameAlreadyEnded),
        game.ended_at is None && !in_grid(grid_view(board), row as int, col as int) ==> (
        r matches Err(e) && e == PlayError::OutOfBounds),
        r matches Ok(d) ==> decision_ok(
            d,
            *game,
            grid_view(board),
            row as int,
            col as int,
            mark,
            session_id,
            now,
        ),
        r matches Ok(d) ==> d.game.wf() && grid_wf(grid_view(&d.board)),
{
    if game.ended_at.is_some() {
        return Err(PlayError::GameAlreadyEnded);
    }
    let new_board = match apply_move(board, row, col, mark) {
        Ok(b) => b,
        Err(e) => {
            return Err(e);
        },
    };
    proof {
        lemma_apply_preserves_wf(grid_view(board), row as int, col as int, mark);
        lemma_rows_len(board);
    }
    let winning = is_winning_move(row, col, &new_board);
    let new_game = if winning {
        game.mark_ended(session_id, now)
    } else {
        *game
    };
    Ok(PlayDecision { board: new_board, winning, mark, game: new_game })
}

/// The protocol frame announcing a decision: `End <mark>` after a winning
/// move, else `Board <grid>` with the new snapshot.
pub open spec fn spec_outcome_message(d: PlayDecision) -> Seq<char> {
    if d.winning {
        end_msg_chars(d.mark)
    } else {
        board_msg_chars(grid_view(&d.board))
    }
}

/// Builds the frame a decision publishes.
pub fn outcome_message(d: &PlayDecision) -> (r: String)
    ensures
        r@ == spec_outcome_message(*d),
{
    if d.winning {
        encode_end(d.mark)
    } else {
        encode_board(&d.board)
    }
}

/// Publishes the decision's frame on the match's bus and returns the text
/// that was sent. Delivery is best-effort: whether any subscriber was
/// listening is ignored, as the write path requires that no consumer can
/// block a producer.
pub fn publish_outcome(tx: &Sender<String>, d: &PlayDecision) -> (msg: String)
    ensures
        msg@ == spec_outcome_message(*d),
{
    let msg = outcome_message(d);
    let sent = msg.clone();
    crate::channels::send_text(tx, sent);
    msg
}

/// Row `i` can take the machine's move: its last cell is still empty.
pub open spec fn ai_row_open(g: Seq<Seq<u8>>, i: int) -> bool {
    g[i][g[i].len() - 1] == EMPTY
}

/// The baseline machine strategy: scanning rows in index order, play in the
/// first row whose last cell is still empty, and (0, 0) when no row is
/// open. A placeholder policy, swappable behind the same contract shape.
#[verifier::loop_isolation(false)]
pub fn get_ai_play(board: &Vec<Vec<u8>>) -> (r: (usize, usize))
    requires
        grid_wf(grid_view(board)),
    ensures
        (exists|i: int|
            0 <= i < grid_view(board).len() && #[trigger] ai_row_open(grid_view(board), i)) ==> {
            &&& (r.0 as int) < grid_view(board).len()
            &&& ai_row_open(grid_view(board), r.0 as int)
            &&& forall|j: int| 0 <= j < r.0 ==> !#[trigger] ai_row_open(grid_view(board), j)
            &&& r.1 == grid_view(board)[0].len() - 1
        },
        !(exists|i: int|
            0 <= i < grid_view(board).len() && #[trigger] ai_row_open(grid_view(board), i)) ==> r
            == (0usize, 0usize),
{
    proof {
        lemma_rows_len(board);
    }
    let mut i: usize = 0;
    while i < board.len()
        invariant
            i <= board.len(),
            forall|j: int| 0 <= j < i ==> !#[trigger] ai_row_open(grid_view(board), j),
        decreases board.len() - i,
    {
        let last = board[i].len() - 1;
        if board[i][last] == EMPTY {
            proof {
                assert(grid_view(board)[i as int] == board@[i as int]@);
                assert(ai_row_open(grid_view(board), i as int));
            }
            return (i, last);
        }
        proof {
            assert(grid_view(board)[i as int] == board@[i as int]@);
            assert(!ai_row_open(grid_view(board), i as int));
        }
        i = i + 1;
    }
    (0, 0)
}

/// The mathematical value of a board history: the grids, oldest first.
pub open spec fn history_view(b: &Vec<Vec<Vec<u8>>>) -> Seq<Seq<Seq<u8>>> {
    Seq::new(b@.len(), |i: int| grid_view(&b@[i]))
}

/// The one permitted difference between consecutive snapshots: exactly the
/// played cell changes, from empty to the move's mark; every other cell and
/// all dimensions are kept.
pub open spec fn one_cell_step(
    before: Seq<Seq<u8>>,
    after: Seq<Seq<u8>>,
    row: int,
    col: int,
    mark: u8,
) -> bool {
    &&& 0 <= row < before.len()
    &&& 0 <= col < before[row].len()
    &&& after.len() == before.len()
    &&& (forall|i: int| 0 <= i < before.len() ==> (#[trigger] after[i]).len() == before[i].len())
    &&& before[row][col] == EMPTY
    &&& mark != EMPTY
    &&& after[row][col] == mark
    &&& (forall|i: int, j: int|
        #![trigger after[i][j]]
        0 <= i < before.len() && 0 <= j < before[i].len() && !(i == row && j == col)
            ==> after[i][j] == before[i][j])
}

/// A history built by successful moves: one snapshot per move beyond the
/// initial board, each one a `one_cell_step` from its predecessor.
pub open spec fn history_follows(hist: Seq<Seq<Seq<u8>>>, moves: Seq<(int, int, u8)>) -> bool {
    &&& hist.len() == moves.len() + 1
    &&& (forall|n: int|
        0 <= n < moves.len() ==> one_cell_step(
            hist[n],
            hist[n + 1],
            (#[trigger] moves[n]).0,
            moves[n].1,
            moves[n].2,
        ))
}

/// Board history is append-only and monotonic: a successful move into a
/// still-empty cell extends the history by exactly one snapshot, keeps
/// every earlier snapshot unchanged, and the new head differs from its
/// predecessor in exactly the played cell.
pub proof fn lemma_history_extends(
    hist: Seq<Seq<Seq<u8>>>,
    moves: Seq<(int, int, u8)>,
    hist2: Seq<Seq<Seq<u8>>>,
    row: int,
    col: int,
    mark: u8,
)
    requires
        history_follows(hist, moves),
        in_grid(hist.last(), row, col),
        hist.last()[row][col] == EMPTY,
        mark != EMPTY,
        hist2 == hist.push(spec_apply(hist.last(), row, col, mark)),
    ensures
        history_follows(hist2, moves.push((row, col, mark))),
        hist2.len() == hist.len() + 1,
        forall|i: int| 0 <= i < hist.len() ==> hist2[i] == hist[i],
{
    let moves2 = moves.push((row, col, mark));
    let before = hist.last();
    let after = spec_apply(before, row, col, mark);
    assert(one_cell_step(before, after, row, col, mark)) by {
        assert(after[row] == before[row].update(col, mark));
        assert forall|i: int, j: int|
            #![trigger after[i][j]]
            0 <= i < before.len() && 0 <= j < before[i].len() && !(i == row && j == col) implies after[i][j]
            == before[i][j] by {
            if i == row {
                assert(after[row][j] == before[row].update(col, mark)[j]);
            } else {
                assert(after[i] == before[i]);
            }
        }
    }
    assert forall|n: int| 0 <= n < moves2.len() implies one_cell_step(
        hist2[n],
        hist2[n + 1],
        (#[trigger] moves2[n]).0,
        moves2[n].1,
        moves2[n].2,
    ) by {
        if n < moves.len() {
            assert(moves2[n] == moves[n]);
            assert(one_cell_step(
                hist[n],
                hist[n + 1],
                (moves[n]).0,
                moves[n].1,
                moves[n].2,
            ));
            assert(hist2[n] == hist[n]);
            assert(hist2[n + 1] == hist[n + 1]);
        } else {
            assert(moves2[n] == (row, col, mark));
            assert(hist2[n] == before);
            assert(hist2[n + 1] == after);
        }
    }
}

/// The authoritative state of one match as the pipeline sees it: the game
/// aggregate and the append-only history of board snapshots, oldest first.
/// The durable repository holds the same data; this is its in-memory model.
pub struct MatchState {
    pub game: Game,
    pub boards: Vec<Vec<Vec<u8>>>,
}

impl MatchState {
    /// The state's invariant: at least the initial snapshot, every snapshot
    /// well-formed, and the aggregate's terminal state consistent.
    pub open spec fn wf(self) -> bool {
        &&& self.game.wf()
        &&& history_view(&self.boards).len() >= 1
        &&& (forall|i: int|
            0 <= i < history_view(&self.boards).len() ==> grid_wf(
                #[trigger] history_view(&self.boards)[i],
            ))
    }

    /// The most recent snapshot's grid.
    pub open spec fn current(self) -> Seq<Seq<u8>> {
        history_view(&self.boards).last()
    }

    /// A match as created: the aggregate and its initial snapshot.
    pub fn new(game: Game, initial: Vec<Vec<u8>>) -> (m: MatchState)
        requires
            game.wf(),
            grid_wf(grid_view(&initial)),
        ensures
            m.wf(),
            m.game == game,
            history_view(&m.boards) == seq![grid_view(&initial)],
            history_follows(history_view(&m.boards), Seq::<(int, int, u8)>::empty()),
    {
        let ghost gv = grid_view(&initial);
        let mut boards: Vec<Vec<Vec<u8>>> = Vec::new();
        boards.push(initial);
        let m = MatchState { game, boards };
        proof {
            assert(history_view(&m.boards) =~~= seq![gv]);
        }
        m
    }

    /// One pass of the move pipeline against this state: re-reads the most
    /// recent snapshot, refuses a game that has ended, appends the new
    /// snapshot, and on a win makes the terminal transition. On success the
    /// result says whether the move won; on failure nothing changes.
    pub fn play(
        &mut self,
        row: usize,
        col: usize,
        mark: u8,
        session_id: SessionId,
        now: i64,
    ) -> (r: Result<bool, PlayError>)
        requires
            old(self).wf(),
            mark == 1 || mark == 2,
        ensures
            final(self).wf(),
            old(self).game.ended_at is Some ==> (r matches Err(e) && e
                == PlayError::GameAlreadyEnded),
            r is Err ==> *final(self) == *old(self),
            r is Ok <==> (old(self).game.ended_at is None && in_grid(
                old(self).current(),
                row as int,
                col as int,
            )),
            r matches Ok(win) ==> ({
                let newg = spec_apply(old(self).current(), row as int, col as int, mark);
                &&& history_view(&final(self).boards) == history_view(&old(self).boards).push(newg)
                &&& win == is_win(newg, row as int, col as int)
                &&& final(self).game == (if win {
                    old(self).game.spec_mark_ended(session_id, now)
                } else {
                    old(self).game
                })
                &&& final(self).current() == newg
            }),
    {
        let idx = self.boards.len() - 1;
        proof {
            assert(history_view(&self.boards)[idx as int] == grid_view(&self.boards@[idx as int]));
        }
        let decision = play_decide(&self.game, &self.boards[idx], row, col, mark, session_id, now);
        match decision {
            Ok(d) => {
                let win = d.winning;
                self.boards.push(d.board);
                self.game = d.game;
                proof {
                    let newg = spec_apply(old(self).current(), row as int, col as int, mark);
                    assert(history_view(&self.boards) =~~= history_view(&old(self).boards).push(
                        newg,
                    ));
                    assert forall|i: int| 0 <= i < history_view(&self.boards).len() implies grid_wf(
                        #[trigger] history_view(&self.boards)[i],
                    ) by {
                        if i < history_view(&old(self).boards).len() {
                            assert(grid_wf(history_view(&old(self).boards)[i]));
                        }
                    }
                }
                Ok(win)
            },
            Err(e) => Err(e),
        }
    }
}

} // verus!
