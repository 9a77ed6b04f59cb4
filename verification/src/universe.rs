//! The grid: its dimensions, its two bit buffers and which of them is live.

use crate::bitset::{bits_of, packed};
use crate::rules::{
    all_dead, dimensions_ok, lemma_index, lemma_wrap, lit, live_neighbors, next_cell,
    next_generation, toggled,
};
use fixedbitset::FixedBitSet;
use vstd::prelude::*;

verus! {

/// Tells whether `width` and `height` are dimensions that a grid can have.
pub fn valid_dimensions(width: u32, height: u32) -> (ok: bool)
    ensures
        ok == dimensions_ok(width, height),
{
    if width == 0 || height == 0 {
        return false;
    }
    assert(width * height <= 0xffff_ffff * 0xffff_ffff) by (nonlinear_arith)
        requires
            0 <= width <= 0xffff_ffff,
            0 <= height <= 0xffff_ffff,
    ;
    let cells: u64 = (width as u64) * (height as u64);
    cells <= 0xffff_ffff
}

/// A toroidal Game of Life grid with two buffers of `width * height` bits.
/// Buffer `i` holds the current generation; the other receives the next one.
pub struct Universe {
    width: u32,
    height: u32,
    first: FixedBitSet,
    second: FixedBitSet,
    i: usize,
}

/// Whether `(row, column)` pairs of `list` name the cell at index `idx` of a
/// grid `width` cells wide.
pub open spec fn listed(list: Seq<(u32, u32)>, width: int, idx: int) -> bool {
    exists|j: int| 0 <= j < list.len() && (#[trigger] list[j]).0 * width + list[j].1 == idx
}

impl View for Universe {
    type V = Seq<bool>;

    /// The current generation in row-major order: the cell at `(row, col)` is
    /// at `row * width + col`, and `true` is alive.
    closed spec fn view(&self) -> Seq<bool> {
        if self.i == 0 {
            bits_of(self.first)
        } else {
            bits_of(self.second)
        }
    }
}

impl Universe {
    /// The number of columns.
    pub closed spec fn spec_width(&self) -> u32 {
        self.width
    }

    /// The number of rows.
    pub closed spec fn spec_height(&self) -> u32 {
        self.height
    }

    /// The grid's invariant: valid dimensions, and both buffers hold exactly
    /// `width * height` bits.
    pub closed spec fn wf(&self) -> bool {
        &&& dimensions_ok(self.width, self.height)
        &&& self.i < 2
        &&& bits_of(self.first).len() == self.width * self.height
        &&& bits_of(self.second).len() == self.width * self.height
    }

    /// A well-formed grid has as many cells as its dimensions say.
    pub proof fn lemma_cell_count(&self)
        requires
            self.wf(),
        ensures
            self@.len() == self.spec_width() * self.spec_height(),
            dimensions_ok(self.spec_width(), self.spec_height()),
    {
    }

    /// The number of columns.
    #[verifier::when_used_as_spec(spec_width)]
    pub fn width(&self) -> (w: u32)
        ensures
            w == self.spec_width(),
    {
        self.width
    }

    /// The number of rows.
    #[verifier::when_used_as_spec(spec_height)]
    pub fn height(&self) -> (h: u32)
        ensures
            h == self.spec_height(),
    {
        self.height
    }

    /// A buffer of `width * height` dead cells.
    fn new_cells(width: u32, height: u32) -> (s: FixedBitSet)
        requires
            dimensions_ok(width, height),
        ensures
            bits_of(s) == all_dead((width * height) as nat),
    {
        FixedBitSet::with_capacity((width * height) as usize)
    }

    /// A grid of the given dimensions with every cell dead.
    pub fn empty(width: u32, height: u32) -> (u: Universe)
        requires
            dimensions_ok(width, height),
        ensures
            u.wf(),
            u.spec_width() == width,
            u.spec_height() == height,
            u@ == all_dead((width * height) as nat),
    {
        let first = Universe::new_cells(width, height);
        let second = Universe::new_cells(width, height);
        Universe { width, height, first, second, i: 0 }
    }

    /// The buffer that the next generation is written to.
    pub closed spec fn spare(&self) -> Seq<bool> {
        if self.i == 0 {
            bits_of(self.second)
        } else {
            bits_of(self.first)
        }
    }

    /// The live buffer, for a host to read without copying.
    pub fn get_cells(&self) -> (s: &FixedBitSet)
        requires
            self.wf(),
        ensures
            bits_of(*s) == self@,
            bits_of(*s).len() == self.spec_width() * self.spec_height(),
    {
        if self.i == 0 {
            &self.first
        } else {
            &self.second
        }
    }

    /// The live buffer as its packed 32-bit words, cell `k` in bit `k % 32`
    /// of word `k / 32`.
    pub fn cells(&self) -> (words: &[u32])
        requires
            self.wf(),
        ensures
            packed(words@, self@),
    {
        self.get_cells().as_slice()
    }

    /// The position of the cell at `(row, column)` in the live buffer.
    pub fn get_index(&self, row: u32, column: u32) -> (idx: usize)
        requires
            self.wf(),
            row < self.spec_height(),
            column < self.spec_width(),
        ensures
            idx == row * self.spec_width() + column,
            idx < self@.len(),
    {
        proof {
            lemma_index(self.width as int, self.height as int, row as int, column as int);
        }
        (row * self.width + column) as usize
    }

    /// Writes one cell of the current generation, given its index.
    pub(crate) fn set_live(&mut self, idx: usize, value: bool)
        requires
            old(self).wf(),
            idx < old(self)@.len(),
        ensures
            final(self).wf(),
            final(self).spec_width() == old(self).spec_width(),
            final(self).spec_height() == old(self).spec_height(),
            final(self)@ == old(self)@.update(idx as int, value),
    {
        if self.i == 0 {
            self.first.set(idx, value);
        } else {
            self.second.set(idx, value);
        }
    }

    /// Writes one bit of the spare buffer.
    fn set_spare(&mut self, idx: usize, value: bool)
        requires
            old(self).wf(),
            idx < old(self).spare().len(),
        ensures
            final(self).wf(),
            final(self).width == old(self).width,
            final(self).height == old(self).height,
            final(self).i == old(self).i,
            final(self)@ == old(self)@,
            final(self).spare() == old(self).spare().update(idx as int, value),
    {
        if self.i == 0 {
            self.second.set(idx, value);
        } else {
            self.first.set(idx, value);
        }
    }

    /// Sets the width and resets every cell to dead.
    pub fn set_width(&mut self, width: u32)
        requires
            old(self).wf(),
            dimensions_ok(width, old(self).spec_height()),
        ensures
            final(self).wf(),
            final(self).spec_width() == width,
            final(self).spec_height() == old(self).spec_height(),
            final(self)@ == all_dead((width * old(self).spec_height()) as nat),
    {
        self.width = width;
        self.first = Universe::new_cells(width, self.height);
        self.second = Universe::new_cells(width, self.height);
    }

    /// Sets the height and resets every cell to dead.
    pub fn set_height(&mut self, height: u32)
        requires
            old(self).wf(),
            dimensions_ok(old(self).spec_width(), height),
        ensures
            final(self).wf(),
            final(self).spec_width() == old(self).spec_width(),
            final(self).spec_height() == height,
            final(self)@ == all_dead((old(self).spec_width() * height) as nat),
    {
        self.height = height;
        self.first = Universe::new_cells(self.width, height);
        self.second = Universe::new_cells(self.width, height);
    }

    /// Inverts the cell at `(row, column)` and leaves every other cell.
    pub fn toggle_cell(&mut self, row: u32, column: u32)
        requires
            old(self).wf(),
            row < old(self).spec_height(),
            column < old(self).spec_width(),
        ensures
            final(self).wf(),
            final(self).spec_width() == old(self).spec_width(),
            final(self).spec_height() == old(self).spec_height(),
            final(self)@ == toggled(
                old(self)@,
                row * old(self).spec_width() + column,
            ),
    {
        let idx = self.get_index(row, column);
        if self.i == 0 {
            self.first.toggle(idx);
        } else {
            self.second.toggle(idx);
        }
    }

    /// 1 if the cell at `(row, column)` is alive, else 0.
    fn lit_at(&self, row: u32, column: u32) -> (n: u8)
        requires
            self.wf(),
            row < self.spec_height(),
            column < self.spec_width(),
        ensures
            n == lit(self@, self.spec_width() as int, row as int, column as int),
    {
        let idx = self.get_index(row, column);
        if self.get_cells().contains(idx) {
            1
        } else {
            0
        }
    }

    /// Counts the live cells among the eight neighbours of `(row, column)`,
    /// wrapping round every edge of the grid.
    pub fn live_neighbor_count(&self, row: u32, column: u32) -> (count: u8)
        requires
            self.wf(),
            row < self.spec_height(),
            column < self.spec_width(),
        ensures
            count == live_neighbors(
                self@,
                self.spec_width() as int,
                self.spec_height() as int,
                row as int,
                column as int,
            ),
            count <= 8,
    {
        proof {
            lemma_wrap(row as int, self.height as int);
            lemma_wrap(column as int, self.width as int);
        }
        let mut count: u8 = 0;
        let north = if row == 0 {
            self.height - 1
        } else {
            row - 1
        };

        let south = if row == self.height - 1 {
            0
        } else {
            row + 1
        };

        let west = if column == 0 {
            self.width - 1
        } else {
            column - 1
        };

        let east = if column == self.width - 1 {
            0
        } else {
            column + 1
        };

        count += self.lit_at(north, west);
        count += self.lit_at(north, column);
        count += self.lit_at(north, east);
        count += self.lit_at(row, west);
        count += self.lit_at(row, east);
        count += self.lit_at(south, west);
        count += self.lit_at(south, column);
        count += self.lit_at(south, east);
        count
    }

    /// Replaces the grid by its next generation. Every new cell is computed
    /// from the old generation: the new cells go to the spare buffer, which
    /// becomes the live one when all of them are written.
    pub fn tick(&mut self)
        requires
            old(self).wf(),
        ensures
            final(self).wf(),
            final(self).spec_width() == old(self).spec_width(),
            final(self).spec_height() == old(self).spec_height(),
            final(self)@ == next_generation(
                old(self)@,
                old(self).spec_width() as int,
                old(self).spec_height() as int,
            ),
    {
        let ghost prev = self@;
        let ghost next = next_generation(prev, self.width as int, self.height as int);
        let new_i = (self.i + 1) % 2;
        let mut row: u32 = 0;
        while row < self.height
            invariant
                self.wf(),
                self.width == old(self).width,
                self.height == old(self).height,
                self.i == old(self).i,
                self@ == prev,
                row <= self.height,
                next == next_generation(prev, self.width as int, self.height as int),
                forall|k: int| 0 <= k < row * self.width ==> self.spare()[k] == next[k],
            decreases self.height - row,
        {
            let mut col: u32 = 0;
            while col < self.width
                invariant
                    self.wf(),
                    self.width == old(self).width,
                    self.height == old(self).height,
                    self.i == old(self).i,
                    self@ == prev,
                    row < self.height,
                    col <= self.width,
                    next == next_generation(prev, self.width as int, self.height as int),
                    forall|k: int| 0 <= k < row * self.width + col ==> self.spare()[k] == next[k],
                decreases self.width - col,
            {
                let idx = self.get_index(row, col);
                let cell = self.get_cells().contains(idx);
                let live_neighbors = self.live_neighbor_count(row, col);
                let next_cell = next_cell(cell, live_neighbors);
                proof {
                    lemma_index(self.width as int, self.height as int, row as int, col as int);
                }
                self.set_spare(idx, next_cell);
                col += 1;
            }
            proof {
                assert((row + 1) * self.width == row * self.width + self.width)
                    by (nonlinear_arith);
            }
            row += 1;
        }
        proof {
            assert(row * self.width == self.width * self.height) by (nonlinear_arith)
                requires
                    row == self.height,
            ;
            assert(self.spare() =~= next);
        }
        self.i = new_i;
    }

    /// Kills every cell.
    pub fn clear(&mut self)
        requires
            old(self).wf(),
        ensures
            final(self).wf(),
            final(self).spec_width() == old(self).spec_width(),
            final(self).spec_height() == old(self).spec_height(),
            final(self)@ == all_dead(old(self)@.len()),
    {
        if self.i == 0 {
            self.first.clear();
        } else {
            self.second.clear();
        }
    }

    /// Gives every cell the state drawn for it: cell `k` in row-major order
    /// becomes `draws[k]`.
    pub fn shuffle(&mut self, draws: &[bool])
        requires
            old(self).wf(),
            draws@.len() == old(self)@.len(),
        ensures
            final(self).wf(),
            final(self).spec_width() == old(self).spec_width(),
            final(self).spec_height() == old(self).spec_height(),
            final(self)@ == draws@,
    {
        let n = self.get_cells().len();
        let mut idx: usize = 0;
        while idx < n
            invariant
                self.wf(),
                self.width == old(self).width,
                self.height == old(self).height,
                n == self@.len(),
                n == draws@.len(),
                idx <= n,
                forall|k: int| 0 <= k < idx ==> self@[k] == draws@[k],
            decreases n - idx,
        {
            self.set_live(idx, draws[idx]);
            idx += 1;
        }
        proof {
            assert(self@ =~= draws@);
        }
    }

    /// A grid of the given dimensions whose cell `k` in row-major order is
    /// `draws[k]`.
    pub fn random(width: u32, height: u32, draws: &[bool]) -> (u: Universe)
        requires
            dimensions_ok(width, height),
            draws@.len() == width * height,
        ensures
            u.wf(),
            u.spec_width() == width,
            u.spec_height() == height,
            u@ == draws@,
    {
        let mut universe = Universe::empty(width, height);
        universe.shuffle(draws);
        universe
    }

    /// Brings each listed `(row, column)` to life and leaves the other cells
    /// as they are.
    pub fn set_cells(&mut self, cells: &[(u32, u32)])
        requires
            old(self).wf(),
            forall|k: int|
                0 <= k < cells@.len() ==> (#[trigger] cells@[k]).0 < old(self).spec_height()
                    && cells@[k].1 < old(self).spec_width(),
        ensures
            final(self).wf(),
            final(self).spec_width() == old(self).spec_width(),
            final(self).spec_height() == old(self).spec_height(),
            final(self)@.len() == old(self)@.len(),
            forall|i: int|
                0 <= i < old(self)@.len() ==> (#[trigger] final(self)@[i] <==> (
                old(self)@[i] || listed(cells@, old(self).spec_width() as int, i))),
    {
        let mut k: usize = 0;
        while k < cells.len()
            invariant
                self.wf(),
                self.width == old(self).width,
                self.height == old(self).height,
                self@.len() == old(self)@.len(),
                k <= cells@.len(),
                forall|j: int|
                    0 <= j < cells@.len() ==> (#[trigger] cells@[j]).0 < self.height
                        && cells@[j].1 < self.width,
                forall|i: int|
                    0 <= i < old(self)@.len() ==> (#[trigger] self@[i] <==> (
                    old(self)@[i] || listed(
                        cells@.subrange(0, k as int),
                        self.width as int,
                        i,
                    ))),
            decreases cells@.len() - k,
        {
            let (row, col) = cells[k];
            let idx = self.get_index(row, col);
            let ghost before = self@;
            self.set_live(idx, true);
            proof {
                let w = self.width as int;
                let shorter = cells@.subrange(0, k as int);
                let longer = cells@.subrange(0, k + 1);
                assert forall|i: int| 0 <= i < old(self)@.len() implies (
                #[trigger] self@[i] <==> (old(self)@[i] || listed(longer, w, i))) by {
                    assert(before[i] <==> (old(self)@[i] || listed(shorter, w, i)));
                    if listed(shorter, w, i) {
                        let j = choose|j: int|
                            0 <= j < shorter.len() && (#[trigger] shorter[j]).0 * w + shorter[j].1
                                == i;
                        assert(longer[j] == shorter[j]);
                    }
                    if i == idx {
                        assert(longer[k as int] == cells@[k as int]);
                    }
                    if listed(longer, w, i) && i != idx {
                        let j = choose|j: int|
                            0 <= j < longer.len() && (#[trigger] longer[j]).0 * w + longer[j].1
                                == i;
                        assert(j < k);
                        assert(shorter[j] == longer[j]);
                    }
                }
            }
            k += 1;
        }
        proof {
            assert(cells@.subrange(0, k as int) =~= cells@);
        }
    }
}

} // verus!
