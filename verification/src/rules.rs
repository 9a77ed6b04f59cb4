//! The mathematics of the game: wrap-around neighbours, the transition rule
//! and the next generation of a row-major sequence of cells.

use vstd::arithmetic::div_mod::{
    lemma_div_pos_is_pos, lemma_fundamental_div_mod_converse, lemma_mod_add_multiples_vanish,
    lemma_mod_bound, lemma_mod_self_0, lemma_multiply_divide_lt, lemma_small_mod,
};
use vstd::prelude::*;

verus! {

/// A sequence of `n` dead cells.
pub open spec fn all_dead(n: nat) -> Seq<bool> {
    Seq::new(n, |i: int| false)
}

/// Whether a grid of `width` by `height` cells can be built: both at least 1,
/// and every cell index fits in 32 bits.
pub open spec fn dimensions_ok(width: u32, height: u32) -> bool {
    width >= 1 && height >= 1 && width * height <= u32::MAX
}

/// 1 if the cell at `(row, col)` is alive, else 0.
pub open spec fn lit(cells: Seq<bool>, width: int, row: int, col: int) -> int {
    if cells[row * width + col] {
        1
    } else {
        0
    }
}

/// The number of live cells among the eight neighbours of `(row, col)` on
/// the torus: rows are taken modulo `height`, columns modulo `width`.
pub open spec fn live_neighbors(
    cells: Seq<bool>,
    width: int,
    height: int,
    row: int,
    col: int,
) -> int {
    let north = (row - 1) % height;
    let south = (row + 1) % height;
    let west = (col - 1) % width;
    let east = (col + 1) % width;
    lit(cells, width, north, west) + lit(cells, width, north, col) + lit(
        cells,
        width,
        north,
        east,
    ) + lit(cells, width, row, west) + lit(cells, width, row, east) + lit(
        cells,
        width,
        south,
        west,
    ) + lit(cells, width, south, col) + lit(cells, width, south, east)
}

/// Conway's rule: a live cell survives with two or three live neighbours, a
/// dead cell comes alive with exactly three.
pub open spec fn next_state(alive: bool, neighbors: int) -> bool {
    if alive {
        neighbors == 2 || neighbors == 3
    } else {
        neighbors == 3
    }
}

/// Applies the rule to one cell, given how many of its neighbours live.
pub fn next_cell(alive: bool, live_neighbors: u8) -> (next: bool)
    ensures
        next == next_state(alive, live_neighbors as int),
{
    if alive {
        live_neighbors == 2 || live_neighbors == 3
    } else {
        live_neighbors == 3
    }
}

/// The generation that follows `cells`: each cell's new state depends on the
/// old generation alone.
pub open spec fn next_generation(cells: Seq<bool>, width: int, height: int) -> Seq<bool> {
    Seq::new(
        cells.len(),
        |idx: int|
            next_state(cells[idx], live_neighbors(cells, width, height, idx / width, idx % width)),
    )
}

/// The grid `k` generations after `cells`.
pub open spec fn generations(cells: Seq<bool>, width: int, height: int, k: nat) -> Seq<bool>
    decreases k,
{
    if k == 0 {
        cells
    } else {
        next_generation(generations(cells, width, height, (k - 1) as nat), width, height)
    }
}

/// A blinker lying in the middle row of a 5 by 5 grid: the cells `(2, 1)`,
/// `(2, 2)` and `(2, 3)` alive.
pub open spec fn blinker_flat() -> Seq<bool> {
    Seq::new(25, |i: int| i == 11 || i == 12 || i == 13)
}

/// A blinker standing in the middle column of a 5 by 5 grid: the cells
/// `(1, 2)`, `(2, 2)` and `(3, 2)` alive.
pub open spec fn blinker_upright() -> Seq<bool> {
    Seq::new(25, |i: int| i == 7 || i == 12 || i == 17)
}

/// `cells` with the cell at `idx` inverted.
pub open spec fn toggled(cells: Seq<bool>, idx: int) -> Seq<bool> {
    cells.update(idx, !cells[idx])
}

/// The row below `x` on a ring of `n` rows is `x + 1`, or 0 after the last;
/// the row above is `x - 1`, or the last above row 0.
pub proof fn lemma_wrap(x: int, n: int)
    requires
        0 <= x < n,
    ensures
        (x + 1) % n == (if x == n - 1 { 0 } else { x + 1 }),
        (x - 1) % n == (if x == 0 { n - 1 } else { x - 1 }),
{
    if x == n - 1 {
        lemma_mod_self_0(n);
    } else {
        lemma_small_mod((x + 1) as nat, n as nat);
    }
    if x == 0 {
        lemma_mod_add_multiples_vanish(-1, n);
        lemma_small_mod((n - 1) as nat, n as nat);
    } else {
        lemma_small_mod((x - 1) as nat, n as nat);
    }
}

/// A cell inside the grid has its row-major index inside the buffer, and
/// the index gives the row and the column back.
pub proof fn lemma_index(width: int, height: int, row: int, col: int)
    requires
        0 <= row < height,
        0 <= col < width,
    ensures
        0 <= row * width + col < width * height,
        (row * width + col) / width == row,
        (row * width + col) % width == col,
{
    assert(0 <= row * width && row * width + width <= width * height) by (nonlinear_arith)
        requires
            0 <= row < height,
            0 < width,
    ;
    lemma_fundamental_div_mod_converse(row * width + col, width, row, col);
}

/// Toggling a cell twice gives the grid back: the cell has its first state
/// again and no other cell has changed.
pub proof fn lemma_toggle_twice(cells: Seq<bool>, idx: int)
    requires
        0 <= idx < cells.len(),
    ensures
        toggled(toggled(cells, idx), idx) == cells,
{
    assert(toggled(toggled(cells, idx), idx) =~= cells);
}

/// The next generation read by coordinates: the cell at `(row, col)` follows
/// the rule on its own old state and its old neighbours.
pub proof fn lemma_next_generation_at(
    cells: Seq<bool>,
    width: int,
    height: int,
    row: int,
    col: int,
)
    requires
        cells.len() == width * height,
        0 <= row < height,
        0 <= col < width,
    ensures
        next_generation(cells, width, height).len() == cells.len(),
        next_generation(cells, width, height)[row * width + col] == next_state(
            cells[row * width + col],
            live_neighbors(cells, width, height, row, col),
        ),
{
    lemma_index(width, height, row, col);
}

/// An index into the grid names a cell inside it: its row is `idx / width`
/// and its column `idx % width`.
pub proof fn lemma_coordinates(width: int, height: int, idx: int)
    requires
        0 < width,
        0 <= idx < width * height,
    ensures
        0 <= idx / width < height,
        0 <= idx % width < width,
{
    lemma_multiply_divide_lt(idx, width, height);
    lemma_div_pos_is_pos(idx, width);
    lemma_mod_bound(idx, width);
}

/// Nothing is born on a dead grid: the generation after a grid with every
/// cell dead has every cell dead.
pub proof fn lemma_dead_stays_dead(width: int, height: int)
    requires
        0 < width,
        0 < height,
    ensures
        next_generation(all_dead((width * height) as nat), width, height) == all_dead(
            (width * height) as nat,
        ),
{
    assert(0 < width * height) by (nonlinear_arith)
        requires
            0 < width,
            0 < height,
    ;
    let cells = all_dead((width * height) as nat);
    let next = next_generation(cells, width, height);
    assert forall|idx: int| 0 <= idx < width * height implies !#[trigger] next[idx] by {
        let row = idx / width;
        let col = idx % width;
        lemma_coordinates(width, height, idx);
        lemma_wrap(row, height);
        lemma_wrap(col, width);
        let north = (row - 1) % height;
        let south = (row + 1) % height;
        let west = (col - 1) % width;
        let east = (col + 1) % width;
        lemma_index(width, height, north, west);
        lemma_index(width, height, north, col);
        lemma_index(width, height, north, east);
        lemma_index(width, height, row, west);
        lemma_index(width, height, row, east);
        lemma_index(width, height, south, west);
        lemma_index(width, height, south, col);
        lemma_index(width, height, south, east);
    }
    assert(next =~= cells);
}

/// A lone live cell dies: on a grid of at least two rows and two columns in
/// which only `(row, col)` is alive, that cell is dead in the next
/// generation.
pub proof fn lemma_lone_cell_dies(cells: Seq<bool>, width: int, height: int, row: int, col: int)
    requires
        cells.len() == width * height,
        width >= 2,
        height >= 2,
        0 <= row < height,
        0 <= col < width,
        forall|i: int| 0 <= i < cells.len() ==> (#[trigger] cells[i] <==> i == row * width + col),
    ensures
        !next_generation(cells, width, height)[row * width + col],
{
    lemma_next_generation_at(cells, width, height, row, col);
    lemma_wrap(row, height);
    lemma_wrap(col, width);
    let north = (row - 1) % height;
    let south = (row + 1) % height;
    let west = (col - 1) % width;
    let east = (col + 1) % width;
    lemma_index(width, height, row, col);
    lemma_index(width, height, north, west);
    lemma_index(width, height, north, col);
    lemma_index(width, height, north, east);
    lemma_index(width, height, row, west);
    lemma_index(width, height, row, east);
    lemma_index(width, height, south, west);
    lemma_index(width, height, south, col);
    lemma_index(width, height, south, east);
    assert(live_neighbors(cells, width, height, row, col) == 0);
}

/// A pattern of period two alternates for ever: where one generation takes
/// `a` to `b` and `b` back to `a`, the grid is `a` after every even number of
/// generations and `b` after every odd number.
pub proof fn lemma_two_cycle(a: Seq<bool>, b: Seq<bool>, width: int, height: int, k: nat)
    requires
        next_generation(a, width, height) == b,
        next_generation(b, width, height) == a,
    ensures
        generations(a, width, height, k) == (if k % 2 == 0 {
            a
        } else {
            b
        }),
    decreases k,
{
    if k > 0 {
        lemma_two_cycle(a, b, width, height, (k - 1) as nat);
    }
}

/// The neighbour counts round one cell of the lying and of the standing
/// blinker give that cell's state in the other.
proof fn lemma_blinker_cell(row: int, col: int)
    requires
        0 <= row < 5,
        0 <= col < 5,
    ensures
        next_state(
            blinker_flat()[row * 5 + col],
            live_neighbors(blinker_flat(), 5, 5, row, col),
        ) == blinker_upright()[row * 5 + col],
        next_state(
            blinker_upright()[row * 5 + col],
            live_neighbors(blinker_upright(), 5, 5, row, col),
        ) == blinker_flat()[row * 5 + col],
{
    lemma_wrap(row, 5);
    lemma_wrap(col, 5);
}

/// One generation turns the lying blinker upright and the standing one flat.
pub proof fn lemma_blinker_step()
    ensures
        next_generation(blinker_flat(), 5, 5) == blinker_upright(),
        next_generation(blinker_upright(), 5, 5) == blinker_flat(),
{
    let up = next_generation(blinker_flat(), 5, 5);
    let down = next_generation(blinker_upright(), 5, 5);
    assert forall|idx: int| 0 <= idx < 25 implies #[trigger] up[idx] == blinker_upright()[idx]
        && #[trigger] down[idx] == blinker_flat()[idx] by {
        lemma_blinker_cell(idx / 5, idx % 5);
    }
    assert(up =~= blinker_upright());
    assert(down =~= blinker_flat());
}

/// The blinker alternates for ever: after an even number of generations it
/// lies flat as at the start, after an odd number it stands upright.
pub proof fn lemma_blinker_alternates(k: nat)
    ensures
        generations(blinker_flat(), 5, 5, k) == (if k % 2 == 0 {
            blinker_flat()
        } else {
            blinker_upright()
        }),
{
    lemma_blinker_step();
    lemma_two_cycle(blinker_flat(), blinker_upright(), 5, 5, k);
}

} // verus!
