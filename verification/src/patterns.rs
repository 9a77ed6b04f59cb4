//! Stamping bit patterns onto the grid, and the three named patterns.

use crate::rules::lemma_index;
use crate::universe::Universe;
use vstd::arithmetic::div_mod::{
    lemma_div_pos_is_pos, lemma_fundamental_div_mod, lemma_fundamental_div_mod_converse,
    lemma_mod_bound, lemma_multiply_divide_lt, lemma_small_mod,
};
use vstd::prelude::*;

verus! {

/// The index of the grid cell that receives cell `k` of a pattern
/// `pattern_width` cells wide whose top left corner is put at `(row, col)`:
/// the pattern's rows and columns wrap round the grid's edges.
pub open spec fn target(
    width: int,
    height: int,
    row: int,
    col: int,
    pattern_width: int,
    k: int,
) -> int {
    ((row + k / pattern_width) % height) * width + (col + k % pattern_width) % width
}

/// `cells` after the first `k` cells of the pattern `img`, taken in row-major
/// order, have each overwritten their target. Where a pattern larger than
/// the grid lands twice on one cell, the later pattern cell stands.
pub open spec fn stamped(
    cells: Seq<bool>,
    width: int,
    height: int,
    row: int,
    col: int,
    img: Seq<bool>,
    pattern_width: int,
    k: nat,
) -> Seq<bool>
    decreases k,
{
    if k == 0 {
        cells
    } else {
        stamped(cells, width, height, row, col, img, pattern_width, (k - 1) as nat).update(
            target(width, height, row, col, pattern_width, k - 1),
            img[k - 1],
        )
    }
}

/// The glider, 3 by 3.
pub open spec fn glider() -> Seq<bool> {
    seq![
        false, true, false,
        false, false, true,
        true, true, true,
    ]
}

/// The spaceship, 5 wide and 4 high.
pub open spec fn space_ship() -> Seq<bool> {
    seq![
        false, true, false, false, true,
        true, false, false, false, false,
        true, false, false, false, true,
        true, true, true, true, false,
    ]
}

/// One row of the pulsar that holds its horizontal bars.
pub open spec fn pulsar_bar_row() -> Seq<bool> {
    seq![
        false, false, true, true, true, false, false, false, true, true, true, false, false,
    ]
}

/// One row of the pulsar that holds its vertical bars.
pub open spec fn pulsar_post_row() -> Seq<bool> {
    seq![
        true, false, false, false, false, true, false, true, false, false, false, false, true,
    ]
}

/// The pulsar, 13 by 13: rows 0, 5, 7 and 12 are bar rows, rows 2 to 4 and
/// 8 to 10 are post rows, rows 1, 6 and 11 are empty.
pub open spec fn pulsar() -> Seq<bool> {
    Seq::new(
        169,
        |k: int|
            {
                let r = k / 13;
                let c = k % 13;
                if r == 0 || r == 5 || r == 7 || r == 12 {
                    pulsar_bar_row()[c]
                } else if r == 1 || r == 6 || r == 11 {
                    false
                } else {
                    pulsar_post_row()[c]
                }
            },
    )
}

/// Whether a pattern of `pattern_width` by `pattern_height` cells fits a
/// grid of `width` by `height` cells whose corner cell `(row, col)` is
/// inside the grid.
pub open spec fn fits(
    width: int,
    height: int,
    row: int,
    col: int,
    pattern_width: int,
    pattern_height: int,
) -> bool {
    &&& 0 < pattern_width <= width
    &&& 0 < pattern_height <= height
    &&& 0 <= row < height
    &&& 0 <= col < width
}

/// A number below `2 * n` wraps round `n` at most once.
proof fn lemma_wrap_once(x: int, n: int)
    requires
        0 <= x < 2 * n,
    ensures
        x % n == (if x < n { x } else { x - n }),
{
    if x < n {
        lemma_small_mod(x as nat, n as nat);
    } else {
        lemma_fundamental_div_mod_converse(x, n, 1, x - n);
    }
}

/// Every pattern cell lands inside the grid, and its target gives the
/// wrapped row and column back.
pub proof fn lemma_target_in_grid(
    width: int,
    height: int,
    row: int,
    col: int,
    pattern_width: int,
    k: int,
)
    requires
        0 < width,
        0 < height,
    ensures
        0 <= target(width, height, row, col, pattern_width, k) < width * height,
        target(width, height, row, col, pattern_width, k) / width == (row + k / pattern_width)
            % height,
        target(width, height, row, col, pattern_width, k) % width == (col + k % pattern_width)
            % width,
{
    lemma_mod_bound(row + k / pattern_width, height);
    lemma_mod_bound(col + k % pattern_width, width);
    lemma_index(
        width,
        height,
        (row + k / pattern_width) % height,
        (col + k % pattern_width) % width,
    );
}

/// Stamping keeps the number of cells.
pub proof fn lemma_stamped_len(
    cells: Seq<bool>,
    width: int,
    height: int,
    row: int,
    col: int,
    img: Seq<bool>,
    pattern_width: int,
    k: nat,
)
    requires
        0 < width,
        0 < height,
        cells.len() == width * height,
    ensures
        stamped(cells, width, height, row, col, img, pattern_width, k).len() == cells.len(),
    decreases k,
{
    if k > 0 {
        lemma_stamped_len(cells, width, height, row, col, img, pattern_width, (k - 1) as nat);
        lemma_target_in_grid(width, height, row, col, pattern_width, k - 1);
    }
}

/// A cell that no pattern cell lands on keeps its state.
pub proof fn lemma_stamped_elsewhere(
    cells: Seq<bool>,
    width: int,
    height: int,
    row: int,
    col: int,
    img: Seq<bool>,
    pattern_width: int,
    k: nat,
    idx: int,
)
    requires
        0 < width,
        0 < height,
        cells.len() == width * height,
        0 <= idx < cells.len(),
        forall|j: int| 0 <= j < k ==> target(width, height, row, col, pattern_width, j) != idx,
    ensures
        stamped(cells, width, height, row, col, img, pattern_width, k)[idx] == cells[idx],
    decreases k,
{
    if k > 0 {
        let before = (k - 1) as nat;
        lemma_stamped_elsewhere(cells, width, height, row, col, img, pattern_width, before, idx);
        lemma_stamped_len(cells, width, height, row, col, img, pattern_width, before);
        lemma_target_in_grid(width, height, row, col, pattern_width, k - 1);
        assert(target(width, height, row, col, pattern_width, k - 1) != idx);
    }
}

/// Two cells of a pattern that fits the grid never land on one grid cell.
proof fn lemma_target_injective(
    width: int,
    height: int,
    row: int,
    col: int,
    pattern_width: int,
    pattern_height: int,
    j: int,
    k: int,
)
    requires
        fits(width, height, row, col, pattern_width, pattern_height),
        0 <= j < pattern_width * pattern_height,
        0 <= k < pattern_width * pattern_height,
        target(width, height, row, col, pattern_width, j) == target(
            width,
            height,
            row,
            col,
            pattern_width,
            k,
        ),
    ensures
        j == k,
{
    lemma_target_in_grid(width, height, row, col, pattern_width, j);
    lemma_target_in_grid(width, height, row, col, pattern_width, k);
    lemma_multiply_divide_lt(j, pattern_width, pattern_height);
    lemma_multiply_divide_lt(k, pattern_width, pattern_height);
    lemma_div_pos_is_pos(j, pattern_width);
    lemma_div_pos_is_pos(k, pattern_width);
    lemma_mod_bound(j, pattern_width);
    lemma_mod_bound(k, pattern_width);
    lemma_wrap_once(row + j / pattern_width, height);
    lemma_wrap_once(row + k / pattern_width, height);
    lemma_wrap_once(col + j % pattern_width, width);
    lemma_wrap_once(col + k % pattern_width, width);
    assert(j / pattern_width == k / pattern_width);
    assert(j % pattern_width == k % pattern_width);
    lemma_fundamental_div_mod(j, pattern_width);
    lemma_fundamental_div_mod(k, pattern_width);
}

/// Once the first `n` cells of a pattern that fits the grid are stamped,
/// the target of each of them holds that cell's bit.
proof fn lemma_stamped_at(
    cells: Seq<bool>,
    width: int,
    height: int,
    row: int,
    col: int,
    img: Seq<bool>,
    pattern_width: int,
    pattern_height: int,
    n: nat,
    j: int,
)
    requires
        fits(width, height, row, col, pattern_width, pattern_height),
        cells.len() == width * height,
        0 <= j < n <= pattern_width * pattern_height,
    ensures
        stamped(cells, width, height, row, col, img, pattern_width, n)[target(
            width,
            height,
            row,
            col,
            pattern_width,
            j,
        )] == img[j],
    decreases n,
{
    let before = (n - 1) as nat;
    lemma_stamped_len(cells, width, height, row, col, img, pattern_width, before);
    lemma_target_in_grid(width, height, row, col, pattern_width, j);
    lemma_target_in_grid(width, height, row, col, pattern_width, n - 1);
    if j < n - 1 {
        lemma_stamped_at(
            cells,
            width,
            height,
            row,
            col,
            img,
            pattern_width,
            pattern_height,
            before,
            j,
        );
        if target(width, height, row, col, pattern_width, j) == target(
            width,
            height,
            row,
            col,
            pattern_width,
            n - 1,
        ) {
            lemma_target_injective(
                width,
                height,
                row,
                col,
                pattern_width,
                pattern_height,
                j,
                n - 1,
            );
        }
    }
}

/// A pattern that fits the grid lands cell for cell: after it is stamped
/// with its corner at `(row, col)`, the grid cell `r` rows below and `c`
/// columns right of the corner, wrapped round the edges, holds the pattern's
/// bit at `(r, c)`.
pub proof fn lemma_pattern_lands(
    cells: Seq<bool>,
    width: int,
    height: int,
    row: int,
    col: int,
    img: Seq<bool>,
    pattern_width: int,
    pattern_height: int,
    r: int,
    c: int,
)
    requires
        fits(width, height, row, col, pattern_width, pattern_height),
        cells.len() == width * height,
        0 <= r < pattern_height,
        0 <= c < pattern_width,
    ensures
        stamped(
            cells,
            width,
            height,
            row,
            col,
            img,
            pattern_width,
            (pattern_width * pattern_height) as nat,
        )[((row + r) % height) * width + (col + c) % width] == img[r * pattern_width + c],
{
    lemma_index(pattern_width, pattern_height, r, c);
    lemma_stamped_at(
        cells,
        width,
        height,
        row,
        col,
        img,
        pattern_width,
        pattern_height,
        (pattern_width * pattern_height) as nat,
        r * pattern_width + c,
    );
}

impl Universe {
    /// Writes the pattern `img`, `width` cells wide and `height` high, with
    /// its top left corner at `(row, col)`. Every pattern cell, dead or
    /// alive, overwrites the grid cell it lands on; rows and columns past
    /// the grid's edge wrap round to the opposite edge.
    pub fn insert_at(&mut self, row: u32, col: u32, img: &[bool], width: u32, height: u32)
        requires
            old(self).wf(),
            row < old(self).spec_height(),
            col < old(self).spec_width(),
            img@.len() == width * height,
        ensures
            final(self).wf(),
            final(self).spec_width() == old(self).spec_width(),
            final(self).spec_height() == old(self).spec_height(),
            final(self)@ == stamped(
                old(self)@,
                old(self).spec_width() as int,
                old(self).spec_height() as int,
                row as int,
                col as int,
                img@,
                width as int,
                (width * height) as nat,
            ),
    {
        let ghost start = self@;
        let ghost gw = self.width() as int;
        let ghost gh = self.height() as int;
        let grid_width = self.width();
        let grid_height = self.height();
        let len = img.len();
        let mut r: u32 = 0;
        while r < height
            invariant
                self.wf(),
                self.spec_width() == old(self).spec_width(),
                self.spec_height() == old(self).spec_height(),
                grid_width == self.spec_width(),
                grid_height == self.spec_height(),
                gw == grid_width,
                gh == grid_height,
                row < grid_height,
                col < grid_width,
                img@.len() == width * height,
                len == img@.len(),
                r <= height,
                self@ == stamped(
                    start,
                    gw,
                    gh,
                    row as int,
                    col as int,
                    img@,
                    width as int,
                    (r * width) as nat,
                ),
            decreases height - r,
        {
            let mut c: u32 = 0;
            while c < width
                invariant
                    self.wf(),
                    self.spec_width() == old(self).spec_width(),
                    self.spec_height() == old(self).spec_height(),
                    grid_width == self.spec_width(),
                    grid_height == self.spec_height(),
                    gw == grid_width,
                    gh == grid_height,
                    row < grid_height,
                    col < grid_width,
                    img@.len() == width * height,
                    len == img@.len(),
                    r < height,
                    c <= width,
                    self@ == stamped(
                        start,
                        gw,
                        gh,
                        row as int,
                        col as int,
                        img@,
                        width as int,
                        (r * width + c) as nat,
                    ),
                decreases width - c,
            {
                proof {
                    lemma_index(width as int, height as int, r as int, c as int);
                    self.lemma_cell_count();
                    assert(0 <= r * width) by (nonlinear_arith);
                }
                let img_index = (r as usize) * (width as usize) + (c as usize);
                let value = img[img_index];
                let target_row = ((row as u64 + r as u64) % (grid_height as u64)) as u32;
                let target_col = ((col as u64 + c as u64) % (grid_width as u64)) as u32;
                let index = self.get_index(target_row, target_col);
                self.set_live(index, value);
                c += 1;
            }
            proof {
                assert((r + 1) * width == r * width + width) by (nonlinear_arith);
            }
            r += 1;
        }
        proof {
            assert(r * width == width * height) by (nonlinear_arith)
                requires
                    r == height,
            ;
        }
    }

    /// Writes the spaceship with its top left corner at `(row, col)`.
    pub fn add_space_ship(&mut self, row: u32, col: u32)
        requires
            old(self).wf(),
            row < old(self).spec_height(),
            col < old(self).spec_width(),
        ensures
            final(self).wf(),
            final(self).spec_width() == old(self).spec_width(),
            final(self).spec_height() == old(self).spec_height(),
            final(self)@ == stamped(
                old(self)@,
                old(self).spec_width() as int,
                old(self).spec_height() as int,
                row as int,
                col as int,
                space_ship(),
                5,
                20,
            ),
    {
        let space_ship = [
            false, true, false, false, true,
            true, false, false, false, false,
            true, false, false, false, true,
            true, true, true, true, false,
        ];
        proof {
            assert(space_ship@ =~= self::space_ship());
        }
        self.insert_at(row, col, space_ship.as_slice(), 5, 4);
    }

    /// Writes the pulsar with its top left corner at `(row, col)`.
    pub fn add_pulsar(&mut self, row: u32, col: u32)
        requires
            old(self).wf(),
            row < old(self).spec_height(),
            col < old(self).spec_width(),
        ensures
            final(self).wf(),
            final(self).spec_width() == old(self).spec_width(),
            final(self).spec_height() == old(self).spec_height(),
            final(self)@ == stamped(
                old(self)@,
                old(self).spec_width() as int,
                old(self).spec_height() as int,
                row as int,
                col as int,
                pulsar(),
                13,
                169,
            ),
    {
        let pulsar = [
            false, false, true, true, true, false, false, false, true, true, true, false, false,
            false, false, false, false, false, false, false, false, false, false, false, false, false,
            true, false, false, false, false, true, false, true, false, false, false, false, true,
            true, false, false, false, false, true, false, true, false, false, false, false, true,
            true, false, false, false, false, true, false, true, false, false, false, false, true,
            false, false, true, true, true, false, false, false, true, true, true, false, false,
            false, false, false, false, false, false, false, false, false, false, false, false, false,
            false, false, true, true, true, false, false, false, true, true, true, false, false,
            true, false, false, false, false, true, false, true, false, false, false, false, true,
            true, false, false, false, false, true, false, true, false, false, false, false, true,
            true, false, false, false, false, true, false, true, false, false, false, false, true,
            false, false, false, false, false, false, false, false, false, false, false, false, false,
            false, false, true, true, true, false, false, false, true, true, true, false, false,
        ];
        proof {
            assert(pulsar@ =~= self::pulsar());
        }
        self.insert_at(row, col, pulsar.as_slice(), 13, 13);
    }

    /// Writes the glider with its top left corner at `(row, col)`.
    pub fn add_glider(&mut self, row: u32, col: u32)
        requires
            old(self).wf(),
            row < old(self).spec_height(),
            col < old(self).spec_width(),
        ensures
            final(self).wf(),
            final(self).spec_width() == old(self).spec_width(),
            final(self).spec_height() == old(self).spec_height(),
            final(self)@ == stamped(
                old(self)@,
                old(self).spec_width() as int,
                old(self).spec_height() as int,
                row as int,
                col as int,
                glider(),
                3,
                9,
            ),
    {
        let glider = [
            false, true, false,
            false, false, true,
            true, true, true,
        ];
        proof {
            assert(glider@ =~= self::glider());
        }
        self.insert_at(row, col, glider.as_slice(), 3, 3);
    }
}

} // verus!
