//! One generation step of Conway's Game of Life (the classic B3/S23 rule) on a
//! toroidal grid.
//!
//! A grid is a rectangular matrix of bytes: `0` is a dead cell and any nonzero
//! byte is a live cell. Neighbor lookup wraps around both edges, so the grid is
//! a torus: a cell in the first row has neighbors in the last row, and likewise
//! for columns. [`compute_next`] builds a fresh grid in which every cell holds
//! strictly `0` or `1`; the input is never mutated, and all neighbor counts are
//! taken from the input grid alone.
//!
//! A grid with no rows, with empty rows, or with rows of unequal length is
//! rejected up front with [`GridError::MalformedGrid`]: wraparound indexing is
//! meaningless on such a grid.

use vstd::prelude::*;

verus! {

use vstd::arithmetic::div_mod::{
    lemma_small_mod,
    lemma_mod_self_0,
    lemma_mod_add_multiples_vanish,
};

/// Why a grid was refused.
#[derive(Clone, Copy, Debug, PartialEq, Eq, Structural)]
pub enum GridError {
    /// The grid has no rows, a row has no columns, or two rows differ in length.
    MalformedGrid,
}

/// The mathematical contents of a grid: each row of bytes as a sequence.
pub open spec fn grid_view(rows: Seq<Vec<u8>>) -> Seq<Seq<u8>> {
    Seq::new(rows.len(), |i: int| rows[i]@)
}

/// A grid is valid when it has at least one row, at least one column, and all
/// rows share one length.
pub open spec fn valid_grid(g: Seq<Seq<u8>>) -> bool {
    &&& g.len() > 0
    &&& g[0].len() > 0
    &&& forall|i: int| 0 <= i < g.len() ==> #[trigger] g[i].len() == g[0].len()
}

/// Toroidal index reduction: the mathematical modulo, which lands in
/// `[0, n)` for every offset, negative offsets included.
pub open spec fn wrap_index(i: int, n: int) -> int
    recommends
        n > 0,
{
    i % n
}

/// 1 when the cell at `(i, j)` is live (nonzero), 0 when it is dead.
pub open spec fn live(g: Seq<Seq<u8>>, i: int, j: int) -> nat {
    if g[i][j] != 0 {
        1nat
    } else {
        0nat
    }
}

/// Contribution of the neighbor at offset `(dr, dc)` from `(r, c)`, with both
/// coordinates wrapped around the grid edges.
pub open spec fn neighbor(g: Seq<Seq<u8>>, r: int, c: int, dr: int, dc: int) -> nat {
    live(g, wrap_index(r + dr, g.len() as int), wrap_index(c + dc, g[0].len() as int))
}

/// The count of live cells among the 8 toroidal neighbors of `(r, c)`,
/// the center cell excluded.
pub open spec fn neighbor_count(g: Seq<Seq<u8>>, r: int, c: int) -> nat {
    neighbor(g, r, c, -1, -1) + neighbor(g, r, c, -1, 0) + neighbor(g, r, c, -1, 1)
        + neighbor(g, r, c, 0, -1) + neighbor(g, r, c, 0, 1) + neighbor(g, r, c, 1, -1)
        + neighbor(g, r, c, 1, 0) + neighbor(g, r, c, 1, 1)
}

/// The next state of the cell at `(i, j)`: a live cell survives on 2 or 3 live
/// neighbors, a dead cell is born on exactly 3, and everything else is dead.
pub open spec fn cell_next(g: Seq<Seq<u8>>, i: int, j: int) -> u8 {
    let n = neighbor_count(g, i, j);
    if g[i][j] != 0 {
        if n == 2 || n == 3 {
            1u8
        } else {
            0u8
        }
    } else {
        if n == 3 {
            1u8
        } else {
            0u8
        }
    }
}

/// The whole next generation: every cell stepped by [`cell_next`], all
/// neighbor counts taken from the original grid `g`.
pub open spec fn step_grid(g: Seq<Seq<u8>>) -> Seq<Seq<u8>> {
    Seq::new(g.len(), |i: int| Seq::new(g[0].len(), |j: int| cell_next(g, i, j)))
}

/// Stepping one row downward or leftward in a dimension of size `n` wraps
/// from index 0 to `n - 1`.
proof fn lemma_wrap_decrement(i: int, n: int)
    requires
        0 <= i < n,
    ensures
        wrap_index(i - 1, n) == if i == 0 { n - 1 } else { i - 1 },
{
    if i == 0 {
        lemma_mod_add_multiples_vanish(-1, n);
        lemma_small_mod((n - 1) as nat, n as nat);
    } else {
        lemma_small_mod((i - 1) as nat, n as nat);
    }
}

/// Stepping one row upward or rightward in a dimension of size `n` wraps
/// from index `n - 1` to 0.
proof fn lemma_wrap_increment(i: int, n: int)
    requires
        0 <= i < n,
    ensures
        wrap_index(i + 1, n) == if i + 1 == n { 0 } else { i + 1 },
{
    if i + 1 == n {
        lemma_mod_self_0(n);
    } else {
        lemma_small_mod((i + 1) as nat, n as nat);
    }
}

/// 1 when the cell at `(i, j)` is live, 0 when it is dead; the executable
/// counterpart of [`live`] at already-wrapped coordinates.
fn live_at(grid: &Vec<Vec<u8>>, i: usize, j: usize) -> (b: usize)
    requires
        valid_grid(grid_view(grid@)),
        i < grid@.len(),
        j < grid@[0]@.len(),
    ensures
        b == live(grid_view(grid@), i as int, j as int),
{
    proof {
        assert(grid_view(grid@)[i as int].len() == grid_view(grid@)[0].len());
    }
    if grid[i][j] != 0 {
        1
    } else {
        0
    }
}

/// The count of live cells among the 8 cells adjacent to `(row, col)` on the
/// torus: neighbor coordinates are taken modulo the row and column counts, so
/// cells on an edge see the opposite edge as adjacent. Pure; reads only `grid`.
///
/// The grid must be valid (nonempty and rectangular) and `(row, col)` must name
/// an existing cell: that is this function's documented precondition.
#[verifier::rlimit(30)]
pub fn count_neighbors(grid: &Vec<Vec<u8>>, row: usize, col: usize) -> (n: usize)
    requires
        valid_grid(grid_view(grid@)),
        row < grid@.len(),
        col < grid@[0]@.len(),
    ensures
        n == neighbor_count(grid_view(grid@), row as int, col as int),
        n <= 8,
{
    let rows = grid.len();
    let cols = grid[0].len();
    let up = if row == 0 { rows - 1 } else { row - 1 };
    let down = if row + 1 == rows { 0 } else { row + 1 };
    let left = if col == 0 { cols - 1 } else { col - 1 };
    let right = if col + 1 == cols { 0 } else { col + 1 };
    proof {
        lemma_wrap_decrement(row as int, rows as int);
        lemma_wrap_increment(row as int, rows as int);
        lemma_wrap_decrement(col as int, cols as int);
        lemma_wrap_increment(col as int, cols as int);
        lemma_small_mod(row as nat, rows as nat);
        lemma_small_mod(col as nat, cols as nat);
    }
    let mut n: usize = 0;
    n += live_at(grid, up, left);
    n += live_at(grid, up, col);
    n += live_at(grid, up, right);
    n += live_at(grid, row, left);
    n += live_at(grid, row, right);
    n += live_at(grid, down, left);
    n += live_at(grid, down, col);
    n += live_at(grid, down, right);
    n
}

/// One synchronous generation step. Every output cell is computed by the
/// B3/S23 rule from the neighbor counts of the *input* grid, so no cell's
/// update can see another cell's new state; the input is left untouched and
/// the returned grid is freshly allocated. A grid with no rows, an empty row,
/// or rows of unequal length is refused with [`GridError::MalformedGrid`]
/// before any computation; every valid grid (1×1 upward) is stepped.
#[verifier::loop_isolation(false)]
pub fn compute_next(grid: &Vec<Vec<u8>>) -> (result: Result<Vec<Vec<u8>>, GridError>)
    ensures
        result is Ok <==> valid_grid(grid_view(grid@)),
        result is Ok ==> grid_view(result->Ok_0@) == step_grid(grid_view(grid@)),
        result is Err ==> result->Err_0 == GridError::MalformedGrid,
{
    let ghost g = grid_view(grid@);
    let rows = grid.len();
    if rows == 0 {
        return Err(GridError::MalformedGrid);
    }
    let cols = grid[0].len();
    if cols == 0 {
        return Err(GridError::MalformedGrid);
    }
    for i in 0..rows
        invariant
            forall|k: int| 0 <= k < i ==> #[trigger] g[k].len() == cols,
    {
        if grid[i].len() != cols {
            proof {
                assert(g[i as int].len() != g[0].len());
            }
            return Err(GridError::MalformedGrid);
        }
    }
    let mut next: Vec<Vec<u8>> = Vec::new();
    for i in 0..rows
        invariant
            next@.len() == i,
            forall|k: int| 0 <= k < i ==> #[trigger] next@[k]@ == step_grid(g)[k],
    {
        let mut next_row: Vec<u8> = Vec::new();
        for j in 0..cols
            invariant
                next_row@.len() == j,
                forall|l: int| 0 <= l < j ==> #[trigger] next_row@[l] == cell_next(
                    g,
                    i as int,
                    l,
                ),
        {
            let n = count_neighbors(grid, i, j);
            proof {
                assert(g[i as int].len() == g[0].len());
            }
            let state = grid[i][j] != 0;
            let v: u8 = if state {
                if n == 2 || n == 3 {
                    1
                } else {
                    0
                }
            } else {
                if n == 3 {
                    1
                } else {
                    0
                }
            };
            next_row.push(v);
        }
        proof {
            assert(next_row@ =~= step_grid(g)[i as int]);
        }
        next.push(next_row);
    }
    proof {
        assert(grid_view(next@) =~= step_grid(g));
    }
    Ok(next)
}

/// Shape preservation: the next generation has as many rows as the input, and
/// every one of its rows has the input's column count; in particular the next
/// generation is itself a valid grid.
pub proof fn lemma_shape_preservation(g: Seq<Seq<u8>>)
    requires
        valid_grid(g),
    ensures
        step_grid(g).len() == g.len(),
        forall|i: int| 0 <= i < g.len() ==> #[trigger] step_grid(g)[i].len() == g[0].len(),
        valid_grid(step_grid(g)),
{
}

/// Determinism: the next generation depends on the grid contents alone, so
/// stepping equal grids gives equal results — two calls on one unmodified
/// grid cannot differ.
pub proof fn lemma_determinism(g1: Seq<Seq<u8>>, g2: Seq<Seq<u8>>)
    requires
        g1 == g2,
    ensures
        step_grid(g1) == step_grid(g2),
{
}

/// Birth rule: a dead cell is live in the next generation exactly when it has
/// three live neighbors; with any other count it stays dead.
pub proof fn lemma_birth_rule(g: Seq<Seq<u8>>, i: int, j: int)
    requires
        valid_grid(g),
        0 <= i < g.len(),
        0 <= j < g[0].len(),
        g[i][j] == 0,
    ensures
        step_grid(g)[i][j] == (if neighbor_count(g, i, j) == 3 {
            1u8
        } else {
            0u8
        }),
{
}

/// Survival rule: a live cell stays live in the next generation exactly when
/// it has two or three live neighbors; with fewer or more it dies.
pub proof fn lemma_survival_rule(g: Seq<Seq<u8>>, i: int, j: int)
    requires
        valid_grid(g),
        0 <= i < g.len(),
        0 <= j < g[0].len(),
        g[i][j] != 0,
    ensures
        step_grid(g)[i][j] == (if neighbor_count(g, i, j) == 2 || neighbor_count(g, i, j) == 3 {
            1u8
        } else {
            0u8
        }),
{
}

/// Output normalization: every cell of the next generation is strictly 0 or 1,
/// whatever nonzero bytes the input grid held.
pub proof fn lemma_next_cell_binary(g: Seq<Seq<u8>>, i: int, j: int)
    requires
        valid_grid(g),
        0 <= i < g.len(),
        0 <= j < g[0].len(),
    ensures
        step_grid(g)[i][j] == 0 || step_grid(g)[i][j] == 1,
{
}

} // verus!
