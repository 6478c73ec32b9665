//! Board snapshots: the grid model, the initial empty grid, and the rules
//! engine's `apply_move`.
use vstd::prelude::*;

verus! {

/// A cell holding no mark.
pub const EMPTY: u8 = 0;

/// The side length of the grid a new game starts with.
pub const BOARD_DIM: usize = 7;

/// The mathematical value of a grid: a sequence of rows of marks.
pub open spec fn grid_view(b: &Vec<Vec<u8>>) -> Seq<Seq<u8>> {
    Seq::new(b@.len(), |i: int| b@[i]@)
}

/// A well-formed grid is a non-empty rectangle.
pub open spec fn grid_wf(g: Seq<Seq<u8>>) -> bool {
    &&& g.len() > 0
    &&& g[0].len() > 0
    &&& forall|i: int| 0 <= i < g.len() ==> (#[trigger] g[i]).len() == g[0].len()
}

/// Whether (row, col) addresses a cell of the grid.
pub open spec fn in_grid(g: Seq<Seq<u8>>, row: int, col: int) -> bool {
    0 <= row < g.len() && 0 <= col < g[row].len()
}

/// The grid with cell (row, col) set to `mark` and every other cell kept.
pub open spec fn spec_apply(g: Seq<Seq<u8>>, row: int, col: int, mark: u8) -> Seq<Seq<u8>> {
    g.update(row, g[row].update(col, mark))
}

/// Bridges the well-formedness of the grid's mathematical view to the raw
/// vector rows, so that row indexing is known to stay in bounds.
pub proof fn lemma_rows_len(game_board: &Vec<Vec<u8>>)
    requires
        grid_wf(grid_view(game_board)),
    ensures
        game_board@.len() > 0,
        forall|i: int| 0 <= i < game_board@.len() ==> #[trigger] game_board@[i]@.len()
            == grid_view(game_board)[0].len(),
        grid_view(game_board)[0].len() > 0,
{
    assert forall|i: int| 0 <= i < game_board@.len() implies #[trigger] game_board@[i]@.len()
        == grid_view(game_board)[0].len() by {
        assert(grid_view(game_board)[i] == game_board@[i]@);
    }
}

/// Applying a move inside the grid keeps the grid well-formed and keeps its
/// dimensions.
pub proof fn lemma_apply_preserves_wf(g: Seq<Seq<u8>>, row: int, col: int, mark: u8)
    requires
        grid_wf(g),
        in_grid(g, row, col),
    ensures
        grid_wf(spec_apply(g, row, col, mark)),
        spec_apply(g, row, col, mark).len() == g.len(),
        spec_apply(g, row, col, mark)[0].len() == g[0].len(),
{
    let g2 = spec_apply(g, row, col, mark);
    assert forall|i: int| 0 <= i < g2.len() implies (#[trigger] g2[i]).len() == g2[0].len() by {
        assert(g[i].len() == g[0].len());
        assert(g[row].update(col, mark).len() == g[row].len());
    }
}

/// Applies a move to a grid: a copy of `grid` whose cell (row, col) holds
/// `mark`. Fails when (row, col) lies outside the grid. Whether the target
/// cell was still empty is not checked here; that is the pipeline's concern.
pub fn apply_move(grid: &Vec<Vec<u8>>, row: usize, col: usize, mark: u8) -> (r: Result<
    Vec<Vec<u8>>,
    crate::pipeline::PlayError,
>)
    ensures
        in_grid(grid_view(grid), row as int, col as int) <==> r is Ok,
        r matches Ok(g) ==> grid_view(&g) == spec_apply(grid_view(grid), row as int, col as int, mark),
        r matches Err(e) ==> e == crate::pipeline::PlayError::OutOfBounds,
{
    if row >= grid.len() {
        return Err(crate::pipeline::PlayError::OutOfBounds);
    }
    if col >= grid[row].len() {
        return Err(crate::pipeline::PlayError::OutOfBounds);
    }
    let mut out = clone_grid(grid);
    let mut new_row = clone_row(&grid[row]);
    new_row.set(col, mark);
    out.set(row, new_row);
    proof {
        assert(grid_view(&out) =~~= spec_apply(grid_view(grid), row as int, col as int, mark));
    }
    Ok(out)
}

/// An exact copy of one row.
pub fn clone_row(row: &Vec<u8>) -> (r: Vec<u8>)
    ensures
        r@ == row@,
{
    let mut out: Vec<u8> = Vec::new();
    let mut i: usize = 0;
    while i < row.len()
        invariant
            i <= row.len(),
            out@ == row@.subrange(0, i as int),
        decreases row.len() - i,
    {
        out.push(row[i]);
        i = i + 1;
    }
    proof {
        assert(out@ =~= row@);
    }
    out
}

/// An exact copy of a whole grid.
pub fn clone_grid(grid: &Vec<Vec<u8>>) -> (r: Vec<Vec<u8>>)
    ensures
        grid_view(&r) == grid_view(grid),
        r@.len() == grid@.len(),
{
    let mut out: Vec<Vec<u8>> = Vec::new();
    let mut i: usize = 0;
    while i < grid.len()
        invariant
            i <= grid.len(),
            out@.len() == i,
            forall|j: int| 0 <= j < i ==> out@[j]@ == #[trigger] grid@[j]@,
        decreases grid.len() - i,
    {
        out.push(clone_row(&grid[i]));
        i = i + 1;
    }
    proof {
        assert(grid_view(&out) =~~= grid_view(grid));
    }
    out
}

/// The grid every game starts from: a square of empty cells, `BOARD_DIM`
/// rows of `BOARD_DIM` columns.
pub fn init_state() -> (r: Vec<Vec<u8>>)
    ensures
        grid_view(&r).len() == BOARD_DIM,
        forall|i: int| 0 <= i < BOARD_DIM ==> (#[trigger] grid_view(&r)[i]).len() == BOARD_DIM,
        forall|i: int, j: int|
            0 <= i < BOARD_DIM && 0 <= j < BOARD_DIM ==> #[trigger] grid_view(&r)[i][j] == EMPTY,
        grid_wf(grid_view(&r)),
{
    let mut out: Vec<Vec<u8>> = Vec::new();
    let mut i: usize = 0;
    while i < BOARD_DIM
        invariant
            i <= BOARD_DIM,
            out@.len() == i,
            forall|k: int| 0 <= k < i ==> (#[trigger] out@[k])@.len() == BOARD_DIM,
            forall|k: int, j: int|
                0 <= k < i && 0 <= j < BOARD_DIM ==> #[trigger] out@[k]@[j] == EMPTY,
        decreases BOARD_DIM - i,
    {
        let mut row: Vec<u8> = Vec::new();
        let mut j: usize = 0;
        while j < BOARD_DIM
            invariant
                j <= BOARD_DIM,
                row@.len() == j,
                forall|k: int| 0 <= k < j ==> row@[k] == EMPTY,
            decreases BOARD_DIM - j,
        {
            row.push(EMPTY);
            j = j + 1;
        }
        out.push(row);
        i = i + 1;
    }
    out
}

} // verus!
