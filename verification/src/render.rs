//! A text dump of the grid: one line per row, one glyph per cell.

use crate::bitset::bits_of;
use crate::rules::lemma_index;
use crate::universe::Universe;
use itertools::Itertools;
use vstd::arithmetic::div_mod::lemma_fundamental_div_mod_converse;
use vstd::prelude::*;

verus! {

/// The glyph of a live cell.
pub const ALIVE: char = '\u{25FC}';

/// The glyph of a dead cell.
pub const DEAD: char = '\u{25FB}';

/// The glyph that stands for a cell.
pub open spec fn glyph(alive: bool) -> char {
    if alive {
        ALIVE
    } else {
        DEAD
    }
}

/// The text of a grid: `height` lines, each of `width` glyphs and a line
/// break, rows from the top and cells from the left.
pub open spec fn rendered(cells: Seq<bool>, width: int, height: int) -> Seq<char> {
    Seq::new(
        (height * (width + 1)) as nat,
        |p: int|
            if p % (width + 1) == width {
                '\n'
            } else {
                glyph(cells[(p / (width + 1)) * width + p % (width + 1)])
            },
    )
}

/// `String::push`: appends one character. Believed, not proved.
pub assume_specification[ String::push ](s: &mut String, ch: char)
    ensures
        final(s)@ == old(s)@.push(ch),
;

/// `Itertools::chunks` on the range `0..n`, each chunk collected: the
/// indices below `n` in runs of `size`, in order, the last run shorter where
/// `size` does not divide `n`. Believed, not proved. `chunks` panics on a
/// `size` of 0, which `requires` leaves out.
#[verifier::external_body]
fn index_chunks(n: usize, size: usize) -> (lines: Vec<Vec<usize>>)
    requires
        size != 0,
    ensures
        lines@.len() == (n + size - 1) / (size as int),
        forall|i: int|
            0 <= i < lines@.len() ==> (#[trigger] lines@[i])@.len() == (if n - i * size < size {
                n - i * size
            } else {
                size as int
            }),
        forall|i: int, j: int|
            0 <= i < lines@.len() && 0 <= j < lines@[i]@.len() ==> #[trigger] lines@[i]@[j] == i
                * size + j,
{
    let chunks = (0..n).chunks(size);
    (&chunks).into_iter().map(|chunk| chunk.collect()).collect()
}

impl Universe {
    /// The grid as text: a line per row, `ALIVE` or `DEAD` per cell, and a
    /// line break after each row.
    pub fn render(&self) -> (text: String)
        requires
            self.wf(),
        ensures
            text@ == rendered(
                self@,
                self.spec_width() as int,
                self.spec_height() as int,
            ),
    {
        let cells = self.get_cells();
        let ghost w = self.width() as int;
        let ghost h = self.height() as int;
        let ghost goal = rendered(self@, w, h);
        proof {
            self.lemma_cell_count();
        }
        let lines = index_chunks(cells.len(), self.width() as usize);
        proof {
            assert(w * h + w - 1 == h * w + (w - 1)) by (nonlinear_arith);
            lemma_fundamental_div_mod_converse(w * h + w - 1, w, h, w - 1);
            assert forall|i: int| 0 <= i < h implies (#[trigger] lines@[i])@.len() == w by {
                assert(w * h - i * w >= w) by (nonlinear_arith)
                    requires
                        0 <= i < h,
                        w > 0,
                ;
            }
        }
        let mut text = String::new();
        let mut r: usize = 0;
        while r < lines.len()
            invariant
                self.wf(),
                w == self.spec_width(),
                h == self.spec_height(),
                bits_of(*cells) == self@,
                goal == rendered(self@, w, h),
                goal.len() == h * (w + 1),
                lines@.len() == h,
                r <= h,
                forall|i: int| 0 <= i < h ==> (#[trigger] lines@[i])@.len() == w,
                forall|i: int, j: int|
                    0 <= i < h && 0 <= j < w ==> #[trigger] lines@[i]@[j] == i * w + j,
                text@.len() == r * (w + 1),
                forall|p: int| 0 <= p < text@.len() ==> text@[p] == goal[p],
            decreases h - r,
        {
            let line = &lines[r];
            let mut c: usize = 0;
            while c < line.len()
                invariant
                    self.wf(),
                    w == self.spec_width(),
                    h == self.spec_height(),
                    bits_of(*cells) == self@,
                    goal == rendered(self@, w, h),
                    goal.len() == h * (w + 1),
                    r < h,
                    c <= w,
                    line@.len() == w,
                    forall|j: int| 0 <= j < w ==> #[trigger] line@[j] == r * w + j,
                    text@.len() == r * (w + 1) + c,
                    forall|p: int| 0 <= p < text@.len() ==> text@[p] == goal[p],
                decreases w - c,
            {
                let index = line[c];
                let symbol = if cells.contains(index) {
                    ALIVE
                } else {
                    DEAD
                };
                proof {
                    lemma_index(w + 1, h, r as int, c as int);
                    lemma_index(w, h, r as int, c as int);
                    self.lemma_cell_count();
                }
                text.push(symbol);
                c += 1;
            }
            proof {
                lemma_index(w + 1, h, r as int, w);
                assert((r + 1) * (w + 1) == r * (w + 1) + w + 1) by (nonlinear_arith);
            }
            text.push('\n');
            r += 1;
        }
        proof {
            assert(text@ =~= goal);
        }
        text
    }
}

} // verus!
