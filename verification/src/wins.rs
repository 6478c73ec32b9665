//! Win detection: whether the cell just played completes a straight run of
//! at least four identical marks, in any of the four line orientations
//! (vertical, horizontal, and the two diagonals).
//!
//! Each `seek_*` function walks from the played cell to the far end of the
//! contiguous run of its mark in one direction; a line orientation wins when
//! its two run endpoints are at least three cells apart.
use vstd::prelude::*;

use crate::board::grid_view;
use crate::board::lemma_rows_len;
use crate::board::grid_wf;
use crate::board::in_grid;

verus! {

/// Cell at offset `k` along the vertical orientation exists and carries the
/// played cell's mark.
pub open spec fn vert_match(g: Seq<Seq<u8>>, row: int, col: int, k: int) -> bool {
    in_grid(g, row + k, col) && g[row + k][col] == g[row][col]
}

/// Cell at offset `k` along the horizontal orientation matches.
pub open spec fn horiz_match(g: Seq<Seq<u8>>, row: int, col: int, k: int) -> bool {
    in_grid(g, row, col + k) && g[row][col + k] == g[row][col]
}

/// Cell at offset `k` along the "\" diagonal matches.
pub open spec fn main_match(g: Seq<Seq<u8>>, row: int, col: int, k: int) -> bool {
    in_grid(g, row + k, col + k) && g[row + k][col + k] == g[row][col]
}

/// Cell at offset `k` along the "/" diagonal matches.
pub open spec fn anti_match(g: Seq<Seq<u8>>, row: int, col: int, k: int) -> bool {
    in_grid(g, row - k, col + k) && g[row - k][col + k] == g[row][col]
}

pub open spec fn vert_run(g: Seq<Seq<u8>>, row: int, col: int, lo: int, hi: int) -> bool {
    lo <= 0 <= hi && hi - lo >= 3 && (forall|k: int|
        lo <= k <= hi ==> #[trigger] vert_match(g, row, col, k))
}

pub open spec fn horiz_run(g: Seq<Seq<u8>>, row: int, col: int, lo: int, hi: int) -> bool {
    lo <= 0 <= hi && hi - lo >= 3 && (forall|k: int|
        lo <= k <= hi ==> #[trigger] horiz_match(g, row, col, k))
}

pub open spec fn main_run(g: Seq<Seq<u8>>, row: int, col: int, lo: int, hi: int) -> bool {
    lo <= 0 <= hi && hi - lo >= 3 && (forall|k: int|
        lo <= k <= hi ==> #[trigger] main_match(g, row, col, k))
}

pub open spec fn anti_run(g: Seq<Seq<u8>>, row: int, col: int, lo: int, hi: int) -> bool {
    lo <= 0 <= hi && hi - lo >= 3 && (forall|k: int|
        lo <= k <= hi ==> #[trigger] anti_match(g, row, col, k))
}

pub open spec fn vert_win(g: Seq<Seq<u8>>, row: int, col: int) -> bool {
    exists|lo: int, hi: int| #[trigger] vert_run(g, row, col, lo, hi)
}

pub open spec fn horiz_win(g: Seq<Seq<u8>>, row: int, col: int) -> bool {
    exists|lo: int, hi: int| #[trigger] horiz_run(g, row, col, lo, hi)
}

pub open spec fn main_win(g: Seq<Seq<u8>>, row: int, col: int) -> bool {
    exists|lo: int, hi: int| #[trigger] main_run(g, row, col, lo, hi)
}

pub open spec fn anti_win(g: Seq<Seq<u8>>, row: int, col: int) -> bool {
    exists|lo: int, hi: int| #[trigger] anti_run(g, row, col, lo, hi)
}

/// The played cell lies on a contiguous run of at least four cells of its
/// own mark, in one of the four line orientations.
pub open spec fn is_win(g: Seq<Seq<u8>>, row: int, col: int) -> bool {
    vert_win(g, row, col) || horiz_win(g, row, col) || anti_win(g, row, col) || main_win(
        g,
        row,
        col,
    )
}

/// Upper end of the vertical run: the smallest row index reachable from
/// (row, col) through cells of the same mark.
#[verifier::loop_isolation(false)]
pub fn seek_top(row: usize, col: usize, game_board: &Vec<Vec<u8>>) -> (r: (usize, usize))
    requires
        grid_wf(grid_view(game_board)),
        row < game_board.len(),
        col < grid_view(game_board)[0].len(),
    ensures
        r.1 == col,
        r.0 <= row,
        forall|k: int| r.0 - row <= k <= 0 ==> #[trigger] vert_match(
            grid_view(game_board),
            row as int,
            col as int,
            k,
        ),
        r.0 == 0 || grid_view(game_board)[r.0 - 1][col as int] != grid_view(game_board)[row as int][col as int],
{
    proof {
        lemma_rows_len(game_board);
    }
    let item = game_board[row][col];
    let mut r: usize = row;
    while r > 0 && game_board[r - 1][col] == item
        invariant
            r <= row,
            forall|k: int| r - row <= k <= 0 ==> #[trigger] vert_match(
                grid_view(game_board),
                row as int,
                col as int,
                k,
            ),
        decreases r,
    {
        r = r - 1;
    }
    (r, col)
}

/// Lower end of the vertical run: the largest row index reachable from
/// (row, col) through cells of the same mark.
#[verifier::loop_isolation(false)]
pub fn seek_bottom(row: usize, col: usize, game_board: &Vec<Vec<u8>>) -> (r: (usize, usize))
    requires
        grid_wf(grid_view(game_board)),
        row < game_board.len(),
        col < grid_view(game_board)[0].len(),
    ensures
        r.1 == col,
        row <= r.0 < grid_view(game_board).len(),
        forall|k: int| 0 <= k <= r.0 - row ==> #[trigger] vert_match(
            grid_view(game_board),
            row as int,
            col as int,
            k,
        ),
        r.0 == grid_view(game_board).len() - 1 || grid_view(game_board)[r.0 + 1][col as int]
            != grid_view(game_board)[row as int][col as int],
{
    proof {
        lemma_rows_len(game_board);
    }
    let item = game_board[row][col];
    let mut r: usize = row;
    while r < game_board.len() - 1 && game_board[r + 1][col] == item
        invariant
            row <= r < grid_view(game_board).len(),
            forall|k: int| 0 <= k <= r - row ==> #[trigger] vert_match(
                grid_view(game_board),
                row as int,
                col as int,
                k,
            ),
        decreases game_board.len() - r,
    {
        r = r + 1;
    }
    (r, col)
}

/// Right end of the horizontal run.
#[verifier::loop_isolation(false)]
pub fn seek_right(row: usize, col: usize, game_board: &Vec<Vec<u8>>) -> (r: (usize, usize))
    requires
        grid_wf(grid_view(game_board)),
        row < game_board.len(),
        col < grid_view(game_board)[0].len(),
    ensures
        r.0 == row,
        col <= r.1 < grid_view(game_board)[0].len(),
        forall|k: int| 0 <= k <= r.1 - col ==> #[trigger] horiz_match(
            grid_view(game_board),
            row as int,
            col as int,
            k,
        ),
        r.1 == grid_view(game_board)[0].len() - 1 || grid_view(game_board)[row as int][r.1 + 1]
            != grid_view(game_board)[row as int][col as int],
{
    proof {
        lemma_rows_len(game_board);
    }
    let item = game_board[row][col];
    let mut c: usize = col;
    while c < game_board[row].len() - 1 && game_board[row][c + 1] == item
        invariant
            col <= c < grid_view(game_board)[0].len(),
            forall|k: int| 0 <= k <= c - col ==> #[trigger] horiz_match(
                grid_view(game_board),
                row as int,
                col as int,
                k,
            ),
        decreases grid_view(game_board)[0].len() - c,
    {
        c = c + 1;
    }
    (row, c)
}

/// Left end of the horizontal run.
#[verifier::loop_isolation(false)]
pub fn seek_left(row: usize, col: usize, game_board: &Vec<Vec<u8>>) -> (r: (usize, usize))
    requires
        grid_wf(grid_view(game_board)),
        row < game_board.len(),
        col < grid_view(game_board)[0].len(),
    ensures
        r.0 == row,
        r.1 <= col,
        forall|k: int| r.1 - col <= k <= 0 ==> #[trigger] horiz_match(
            grid_view(game_board),
            row as int,
            col as int,
            k,
        ),
        r.1 == 0 || grid_view(game_board)[row as int][r.1 - 1] != grid_view(game_board)[row as int][col as int],
{
    proof {
        lemma_rows_len(game_board);
    }
    let item = game_board[row][col];
    let mut c: usize = col;
    while c > 0 && game_board[row][c - 1] == item
        invariant
            c <= col,
            forall|k: int| c - col <= k <= 0 ==> #[trigger] horiz_match(
                grid_view(game_board),
                row as int,
                col as int,
                k,
            ),
        decreases c,
    {
        c = c - 1;
    }
    (row, c)
}

/// Upper-right end of the "/" diagonal run.
#[verifier::loop_isolation(false)]
pub fn seek_top_right(row: usize, col: usize, game_board: &Vec<Vec<u8>>) -> (r: (usize, usize))
    requires
        grid_wf(grid_view(game_board)),
        row < game_board.len(),
        col < grid_view(game_board)[0].len(),
    ensures
        r.0 <= row,
        col <= r.1 < grid_view(game_board)[0].len(),
        row - r.0 == r.1 - col,
        forall|k: int| 0 <= k <= r.1 - col ==> #[trigger] anti_match(
            grid_view(game_board),
            row as int,
            col as int,
            k,
        ),
        r.0 == 0 || r.1 == grid_view(game_board)[0].len() - 1 || grid_view(game_board)[r.0 - 1][r.1
            + 1] != grid_view(game_board)[row as int][col as int],
{
    proof {
        lemma_rows_len(game_board);
    }
    let item = game_board[row][col];
    let mut r: usize = row;
    let mut c: usize = col;
    while r > 0 && c < game_board[r].len() - 1 && game_board[r - 1][c + 1] == item
        invariant
            r <= row,
            col <= c < grid_view(game_board)[0].len(),
            row - r == c - col,
            forall|k: int| 0 <= k <= c - col ==> #[trigger] anti_match(
                grid_view(game_board),
                row as int,
                col as int,
                k,
            ),
        decreases r,
    {
        r = r - 1;
        c = c + 1;
    }
    (r, c)
}

/// Upper-left end of the "\" diagonal run.
#[verifier::loop_isolation(false)]
pub fn seek_top_left(row: usize, col: usize, game_board: &Vec<Vec<u8>>) -> (r: (usize, usize))
    requires
        grid_wf(grid_view(game_board)),
        row < game_board.len(),
        col < grid_view(game_board)[0].len(),
    ensures
        r.0 <= row,
        r.1 <= col,
        row - r.0 == col - r.1,
        forall|k: int| r.1 - col <= k <= 0 ==> #[trigger] main_match(
            grid_view(game_board),
            row as int,
            col as int,
            k,
        ),
        r.0 == 0 || r.1 == 0 || grid_view(game_board)[r.0 - 1][r.1 - 1] != grid_view(game_board)[row as int][col as int],
{
    proof {
        lemma_rows_len(game_board);
    }
    let item = game_board[row][col];
    let mut r: usize = row;
    let mut c: usize = col;
    while r > 0 && c > 0 && game_board[r - 1][c - 1] == item
        invariant
            r <= row,
            c <= col,
            row - r == col - c,
            forall|k: int| c - col <= k <= 0 ==> #[trigger] main_match(
                grid_view(game_board),
                row as int,
                col as int,
                k,
            ),
        decreases r,
    {
        r = r - 1;
        c = c - 1;
    }
    (r, c)
}

/// Lower-right end of the "\" diagonal run.
#[verifier::loop_isolation(false)]
pub fn seek_bottom_right(row: usize, col: usize, game_board: &Vec<Vec<u8>>) -> (r: (usize, usize))
    requires
        grid_wf(grid_view(game_board)),
        row < game_board.len(),
        col < grid_view(game_board)[0].len(),
    ensures
        row <= r.0 < grid_view(game_board).len(),
        col <= r.1 < grid_view(game_board)[0].len(),
        r.0 - row == r.1 - col,
        forall|k: int| 0 <= k <= r.1 - col ==> #[trigger] main_match(
            grid_view(game_board),
            row as int,
            col as int,
            k,
        ),
        r.0 == grid_view(game_board).len() - 1 || r.1 == grid_view(game_board)[0].len() - 1
            || grid_view(game_board)[r.0 + 1][r.1 + 1] != grid_view(game_board)[row as int][col as int],
{
    proof {
        lemma_rows_len(game_board);
    }
    let item = game_board[row][col];
    let mut r: usize = row;
    let mut c: usize = col;
    while r < game_board.len() - 1 && c < game_board[r].len() - 1 && game_board[r + 1][c + 1]
        == item
        invariant
            row <= r < grid_view(game_board).len(),
            col <= c < grid_view(game_board)[0].len(),
            r - row == c - col,
            forall|k: int| 0 <= k <= c - col ==> #[trigger] main_match(
                grid_view(game_board),
                row as int,
                col as int,
                k,
            ),
        decreases game_board.len() - r,
    {
        r = r + 1;
        c = c + 1;
    }
    (r, c)
}

/// Lower-left end of the "/" diagonal run.
#[verifier::loop_isolation(false)]
pub fn seek_bottom_left(row: usize, col: usize, game_board: &Vec<Vec<u8>>) -> (r: (usize, usize))
    requires
        grid_wf(grid_view(game_board)),
        row < game_board.len(),
        col < grid_view(game_board)[0].len(),
    ensures
        row <= r.0 < grid_view(game_board).len(),
        r.1 <= col,
        r.0 - row == col - r.1,
        forall|k: int| r.1 - col <= k <= 0 ==> #[trigger] anti_match(
            grid_view(game_board),
            row as int,
            col as int,
            k,
        ),
        r.0 == grid_view(game_board).len() - 1 || r.1 == 0 || grid_view(game_board)[r.0 + 1][r.1
            - 1] != grid_view(game_board)[row as int][col as int],
{
    proof {
        lemma_rows_len(game_board);
    }
    let item = game_board[row][col];
    let mut r: usize = row;
    let mut c: usize = col;
    while r < game_board.len() - 1 && c > 0 && game_board[r + 1][c - 1] == item
        invariant
            row <= r < grid_view(game_board).len(),
            c <= col,
            r - row == col - c,
            forall|k: int| c - col <= k <= 0 ==> #[trigger] anti_match(
                grid_view(game_board),
                row as int,
                col as int,
                k,
            ),
        decreases game_board.len() - r,
    {
        r = r + 1;
        c = c - 1;
    }
    (r, c)
}

/// Between the two endpoints of the maximal vertical run through (row, col),
/// a winning vertical run exists exactly when they are at least three apart.
proof fn lemma_vert_win_iff(g: Seq<Seq<u8>>, row: int, col: int, rt: int, rb: int)
    requires
        grid_wf(g),
        0 <= row < g.len(),
        0 <= col < g[0].len(),
        0 <= rt <= row <= rb < g.len(),
        forall|k: int| rt - row <= k <= rb - row ==> #[trigger] vert_match(g, row, col, k),
        rt == 0 || g[rt - 1][col] != g[row][col],
        rb == g.len() - 1 || g[rb + 1][col] != g[row][col],
    ensures
        vert_win(g, row, col) <==> rb - rt >= 3,
{
    if rb - rt >= 3 {
        assert(vert_run(g, row, col, rt - row, rb - row));
    }
    if vert_win(g, row, col) {
        let (lo, hi) = choose|lo: int, hi: int| #[trigger] vert_run(g, row, col, lo, hi);
        if row + lo < rt {
            assert(vert_match(g, row, col, rt - 1 - row));
            assert(false);
        }
        if row + hi > rb {
            assert(vert_match(g, row, col, rb + 1 - row));
            assert(false);
        }
    }
}

/// Horizontal analogue of `lemma_vert_win_iff`.
proof fn lemma_horiz_win_iff(g: Seq<Seq<u8>>, row: int, col: int, cl: int, cr: int)
    requires
        grid_wf(g),
        0 <= row < g.len(),
        0 <= col < g[0].len(),
        0 <= cl <= col <= cr < g[0].len(),
        forall|k: int| cl - col <= k <= cr - col ==> #[trigger] horiz_match(g, row, col, k),
        cl == 0 || g[row][cl - 1] != g[row][col],
        cr == g[0].len() - 1 || g[row][cr + 1] != g[row][col],
    ensures
        horiz_win(g, row, col) <==> cr - cl >= 3,
{
    if cr - cl >= 3 {
        assert(horiz_run(g, row, col, cl - col, cr - col));
    }
    if horiz_win(g, row, col) {
        let (lo, hi) = choose|lo: int, hi: int| #[trigger] horiz_run(g, row, col, lo, hi);
        if col + lo < cl {
            assert(horiz_match(g, row, col, cl - 1 - col));
            assert(false);
        }
        if col + hi > cr {
            assert(horiz_match(g, row, col, cr + 1 - col));
            assert(false);
        }
    }
}

/// "/" diagonal analogue: `d_bl` and `d_tr` are the distances walked to the
/// lower-left and upper-right ends of the maximal run.
proof fn lemma_anti_win_iff(g: Seq<Seq<u8>>, row: int, col: int, d_bl: int, d_tr: int)
    requires
        grid_wf(g),
        0 <= row < g.len(),
        0 <= col < g[0].len(),
        0 <= d_bl,
        0 <= d_tr,
        row + d_bl < g.len(),
        col - d_bl >= 0,
        row - d_tr >= 0,
        col + d_tr < g[0].len(),
        forall|k: int| -d_bl <= k <= d_tr ==> #[trigger] anti_match(g, row, col, k),
        row + d_bl == g.len() - 1 || col - d_bl == 0 || g[row + d_bl + 1][col - d_bl - 1] != g[row][col],
        row - d_tr == 0 || col + d_tr == g[0].len() - 1 || g[row - d_tr - 1][col + d_tr + 1] != g[row][col],
    ensures
        anti_win(g, row, col) <==> d_bl + d_tr >= 3,
{
    if d_bl + d_tr >= 3 {
        assert(anti_run(g, row, col, -d_bl, d_tr));
    }
    if anti_win(g, row, col) {
        let (lo, hi) = choose|lo: int, hi: int| #[trigger] anti_run(g, row, col, lo, hi);
        if lo < -d_bl {
            assert(anti_match(g, row, col, -d_bl - 1));
            assert(false);
        }
        if hi > d_tr {
            assert(anti_match(g, row, col, d_tr + 1));
            assert(false);
        }
    }
}

/// "\" diagonal analogue: `d_tl` and `d_br` are the distances walked to the
/// upper-left and lower-right ends of the maximal run.
proof fn lemma_main_win_iff(g: Seq<Seq<u8>>, row: int, col: int, d_tl: int, d_br: int)
    requires
        grid_wf(g),
        0 <= row < g.len(),
        0 <= col < g[0].len(),
        0 <= d_tl,
        0 <= d_br,
        row - d_tl >= 0,
        col - d_tl >= 0,
        row + d_br < g.len(),
        col + d_br < g[0].len(),
        forall|k: int| -d_tl <= k <= d_br ==> #[trigger] main_match(g, row, col, k),
        row - d_tl == 0 || col - d_tl == 0 || g[row - d_tl - 1][col - d_tl - 1] != g[row][col],
        row + d_br == g.len() - 1 || col + d_br == g[0].len() - 1 || g[row + d_br + 1][col + d_br
            + 1] != g[row][col],
    ensures
        main_win(g, row, col) <==> d_tl + d_br >= 3,
{
    if d_tl + d_br >= 3 {
        assert(main_run(g, row, col, -d_tl, d_br));
    }
    if main_win(g, row, col) {
        let (lo, hi) = choose|lo: int, hi: int| #[trigger] main_run(g, row, col, lo, hi);
        if lo < -d_tl {
            assert(main_match(g, row, col, -d_tl - 1));
            assert(false);
        }
        if hi > d_br {
            assert(main_match(g, row, col, d_br + 1));
            assert(false);
        }
    }
}

/// The cell at offset `k` along the vertical orientation exists and holds
/// the mark `m`.
pub open spec fn vert_cell_is(g: Seq<Seq<u8>>, row: int, col: int, m: u8, k: int) -> bool {
    in_grid(g, row + k, col) && g[row + k][col] == m
}

/// Horizontal analogue of `vert_cell_is`.
pub open spec fn horiz_cell_is(g: Seq<Seq<u8>>, row: int, col: int, m: u8, k: int) -> bool {
    in_grid(g, row, col + k) && g[row][col + k] == m
}

/// "\" diagonal analogue of `vert_cell_is`.
pub open spec fn main_cell_is(g: Seq<Seq<u8>>, row: int, col: int, m: u8, k: int) -> bool {
    in_grid(g, row + k, col + k) && g[row + k][col + k] == m
}

/// "/" diagonal analogue of `vert_cell_is`.
pub open spec fn anti_cell_is(g: Seq<Seq<u8>>, row: int, col: int, m: u8, k: int) -> bool {
    in_grid(g, row - k, col + k) && g[row - k][col + k] == m
}

/// The cells from offset `lo` to `hi` along the vertical orientation all
/// exist and all hold the mark `m`, and they span at least four cells
/// around (row, col).
pub open spec fn mark_run_vert(g: Seq<Seq<u8>>, row: int, col: int, m: u8, lo: int, hi: int) -> bool {
    lo <= 0 <= hi && hi - lo >= 3 && (forall|k: int|
        lo <= k <= hi ==> #[trigger] vert_cell_is(g, row, col, m, k))
}

/// Horizontal analogue of `mark_run_vert`.
pub open spec fn mark_run_horiz(g: Seq<Seq<u8>>, row: int, col: int, m: u8, lo: int, hi: int) -> bool {
    lo <= 0 <= hi && hi - lo >= 3 && (forall|k: int|
        lo <= k <= hi ==> #[trigger] horiz_cell_is(g, row, col, m, k))
}

/// "\" diagonal analogue of `mark_run_vert`.
pub open spec fn mark_run_main(g: Seq<Seq<u8>>, row: int, col: int, m: u8, lo: int, hi: int) -> bool {
    lo <= 0 <= hi && hi - lo >= 3 && (forall|k: int|
        lo <= k <= hi ==> #[trigger] main_cell_is(g, row, col, m, k))
}

/// "/" diagonal analogue of `mark_run_vert`.
pub open spec fn mark_run_anti(g: Seq<Seq<u8>>, row: int, col: int, m: u8, lo: int, hi: int) -> bool {
    lo <= 0 <= hi && hi - lo >= 3 && (forall|k: int|
        lo <= k <= hi ==> #[trigger] anti_cell_is(g, row, col, m, k))
}

/// The cell (row, col) is part of a straight run of at least four cells all
/// holding the same non-empty mark `m`, in one of the four orientations.
pub open spec fn on_four_run_of_mark(g: Seq<Seq<u8>>, row: int, col: int, m: u8) -> bool {
    &&& m != crate::board::EMPTY
    &&& {
        ||| exists|lo: int, hi: int| #[trigger] mark_run_vert(g, row, col, m, lo, hi)
        ||| exists|lo: int, hi: int| #[trigger] mark_run_horiz(g, row, col, m, lo, hi)
        ||| exists|lo: int, hi: int| #[trigger] mark_run_anti(g, row, col, m, lo, hi)
        ||| exists|lo: int, hi: int| #[trigger] mark_run_main(g, row, col, m, lo, hi)
    }
}

/// For any snapshot and any cell holding a non-empty mark, the move at that
/// cell is winning exactly when the cell is part of a run of at least four
/// cells of that same non-empty mark in one of the four orientations.
pub proof fn lemma_win_iff_nonzero_four_run(g: Seq<Seq<u8>>, row: int, col: int)
    requires
        grid_wf(g),
        0 <= row < g.len(),
        0 <= col < g[0].len(),
        g[row][col] != crate::board::EMPTY,
    ensures
        is_win(g, row, col) <==> on_four_run_of_mark(g, row, col, g[row][col]),
{
    let m = g[row][col];
    if vert_win(g, row, col) {
        let (lo, hi) = choose|lo: int, hi: int| #[trigger] vert_run(g, row, col, lo, hi);
        assert forall|k: int| lo <= k <= hi implies #[trigger] vert_cell_is(g, row, col, m, k) by {
            assert(vert_match(g, row, col, k));
        }
        assert(mark_run_vert(g, row, col, m, lo, hi));
    }
    if horiz_win(g, row, col) {
        let (lo, hi) = choose|lo: int, hi: int| #[trigger] horiz_run(g, row, col, lo, hi);
        assert forall|k: int| lo <= k <= hi implies #[trigger] horiz_cell_is(g, row, col, m, k) by {
            assert(horiz_match(g, row, col, k));
        }
        assert(mark_run_horiz(g, row, col, m, lo, hi));
    }
    if anti_win(g, row, col) {
        let (lo, hi) = choose|lo: int, hi: int| #[trigger] anti_run(g, row, col, lo, hi);
        assert forall|k: int| lo <= k <= hi implies #[trigger] anti_cell_is(g, row, col, m, k) by {
            assert(anti_match(g, row, col, k));
        }
        assert(mark_run_anti(g, row, col, m, lo, hi));
    }
    if main_win(g, row, col) {
        let (lo, hi) = choose|lo: int, hi: int| #[trigger] main_run(g, row, col, lo, hi);
        assert forall|k: int| lo <= k <= hi implies #[trigger] main_cell_is(g, row, col, m, k) by {
            assert(main_match(g, row, col, k));
        }
        assert(mark_run_main(g, row, col, m, lo, hi));
    }
    if on_four_run_of_mark(g, row, col, m) {
        if exists|lo: int, hi: int| #[trigger] mark_run_vert(g, row, col, m, lo, hi) {
            let (lo, hi) = choose|lo: int, hi: int| #[trigger] mark_run_vert(g, row, col, m, lo, hi);
            assert forall|k: int| lo <= k <= hi implies #[trigger] vert_match(g, row, col, k) by {
                assert(vert_cell_is(g, row, col, m, k));
            }
            assert(vert_run(g, row, col, lo, hi));
        } else if exists|lo: int, hi: int| #[trigger] mark_run_horiz(g, row, col, m, lo, hi) {
            let (lo, hi) = choose|lo: int, hi: int| #[trigger] mark_run_horiz(g, row, col, m, lo, hi);
            assert forall|k: int| lo <= k <= hi implies #[trigger] horiz_match(g, row, col, k) by {
                assert(horiz_cell_is(g, row, col, m, k));
            }
            assert(horiz_run(g, row, col, lo, hi));
        } else if exists|lo: int, hi: int| #[trigger] mark_run_anti(g, row, col, m, lo, hi) {
            let (lo, hi) = choose|lo: int, hi: int| #[trigger] mark_run_anti(g, row, col, m, lo, hi);
            assert forall|k: int| lo <= k <= hi implies #[trigger] anti_match(g, row, col, k) by {
                assert(anti_cell_is(g, row, col, m, k));
            }
            assert(anti_run(g, row, col, lo, hi));
        } else {
            let (lo, hi) = choose|lo: int, hi: int| #[trigger] mark_run_main(g, row, col, m, lo, hi);
            assert forall|k: int| lo <= k <= hi implies #[trigger] main_match(g, row, col, k) by {
                assert(main_cell_is(g, row, col, m, k));
            }
            assert(main_run(g, row, col, lo, hi));
        }
    }
}

/// Whether the mark at (row, col) completes a run of at least four cells of
/// its mark in any of the four orientations. Evaluated from the played cell
/// alone, walking each orientation to the ends of its contiguous run.
pub fn is_winning_move(row: usize, col: usize, game_board: &Vec<Vec<u8>>) -> (r: bool)
    requires
        grid_wf(grid_view(game_board)),
        row < game_board.len(),
        col < grid_view(game_board)[0].len(),
    ensures
        r == is_win(grid_view(game_board), row as int, col as int),
{
    let ghost g = grid_view(game_board);

    // line: |
    let (row_top, _col_top) = seek_top(row, col, game_board);
    let (row_btm, _col_btm) = seek_bottom(row, col, game_board);
    proof {
        lemma_vert_win_iff(g, row as int, col as int, row_top as int, row_btm as int);
    }
    if row_btm - row_top >= 3 {
        return true;
    }

    // line: -
    let (_row_left, col_left) = seek_left(row, col, game_board);
    let (_row_right, col_right) = seek_right(row, col, game_board);
    proof {
        lemma_horiz_win_iff(g, row as int, col as int, col_left as int, col_right as int);
    }
    if col_right - col_left >= 3 {
        return true;
    }

    // line: /
    let (_row_top_right, col_top_right) = seek_top_right(row, col, game_board);
    let (_row_btm_left, col_btm_left) = seek_bottom_left(row, col, game_board);
    proof {
        lemma_anti_win_iff(
            g,
            row as int,
            col as int,
            col as int - col_btm_left as int,
            col_top_right as int - col as int,
        );
    }
    if col_top_right - col_btm_left >= 3 {
        return true;
    }

    // line: \
    let (_row_top_left, col_top_left) = seek_top_left(row, col, game_board);
    let (_row_btm_right, col_btm_right) = seek_bottom_right(row, col, game_board);
    proof {
        lemma_main_win_iff(
            g,
            row as int,
            col as int,
            col as int - col_top_left as int,
            col_btm_right as int - col as int,
        );
    }
    if col_btm_right - col_top_left >= 3 {
        return true;
    }

    false
}

} // verus!
