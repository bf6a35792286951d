//! Why the neighbour counts may be written over a grid in place.
//!
//! Writing the count of its live neighbours over each live cell, one cell
//! after another, changes the grid while it is still being read. The counts
//! come out as on the untouched grid all the same: a cell that has been
//! written over can only mislead a later count if it was live and is now
//! zero, and a live cell in the block of another live cell has that cell
//! for a neighbour, so that its count is not zero.

use vstd::prelude::*;
use crate::board::Board;
use crate::torus::{lemma_position_in_range, lemma_position_split, lemma_wrap_step_back};
use crate::torus::{position, wrap};

verus! {

impl Board {
    /// Neighbourhood is mutual: a live cell found at another place of the
    /// block around a live cell has that cell in its own block, and so has
    /// at least one live neighbour.
    pub proof fn lemma_live_pair(self, x: int, y: int, dx: int, dy: int)
        requires
            self.wf(),
            self.contains(x, y),
            -1 <= dx <= 1,
            -1 <= dy <= 1,
            dx != 0 || dy != 0,
            self.live(x, y),
            self.occupied(x + dx, y + dy) == 1,
        ensures
            self.contains(wrap(x + dx, self.width as int), wrap(y + dy, self.height as int)),
            self.neighbours(wrap(x + dx, self.width as int), wrap(y + dy, self.height as int))
                >= 1,
    {
        let px = wrap(x + dx, self.width as int);
        let py = wrap(y + dy, self.height as int);
        lemma_wrap_step_back(x, dx, self.width as int);
        lemma_wrap_step_back(y, dy, self.height as int);
        assert(self.occupied(px - dx, py - dy) == 1);
        assert(self.occupied(px, py) == 1);
    }

    /// `cells` is this board with the neighbour counts written over the first
    /// `done` cells, and the rest as it was.
    pub open spec fn annotated_upto(self, cells: Seq<u8>, done: int) -> bool {
        &&& cells.len() == self.cells.len()
        &&& forall|i: int|
            0 <= i < cells.len() ==> #[trigger] cells[i] == if i < done {
                self.annotated().cells[i]
            } else {
                self.cells[i]
            }
    }

    /// While the neighbour counts are written over a board cell by cell, a
    /// place around the cell that is next in turn is live exactly if it was
    /// live before the first write.
    proof fn lemma_place_keeps(self, now: Board, x: int, y: int, dx: int, dy: int)
        requires
            self.wf(),
            now.width == self.width,
            now.height == self.height,
            self.contains(x, y),
            self.live(x, y),
            self.annotated_upto(now.cells, position(self.width as int, x, y)),
            -1 <= dx <= 1,
            -1 <= dy <= 1,
        ensures
            now.occupied(x + dx, y + dy) == self.occupied(x + dx, y + dy),
    {
        let w = self.width as int;
        let h = self.height as int;
        let px = wrap(x + dx, w);
        let py = wrap(y + dy, h);
        lemma_wrap_step_back(x, dx, w);
        lemma_wrap_step_back(y, dy, h);
        let at = position(w, px, py);
        lemma_position_in_range(w, h, px, py);
        lemma_position_split(w, px, py);
        assert(now.cells[at] == if at < position(w, x, y) {
            self.annotated().cells[at]
        } else {
            self.cells[at]
        });
        if at < position(w, x, y) && self.cells[at] > 0 {
            assert(dx != 0 || dy != 0);
            self.lemma_live_pair(x, y, dx, dy);
            self.lemma_neighbours_bound(px, py);
        }
    }

    /// While the neighbour counts are written over a board cell by cell, the
    /// live cell that is next in turn has as many live neighbours as it had
    /// before the first write.
    pub proof fn lemma_count_keeps(self, now: Board, x: int, y: int)
        requires
            self.wf(),
            now.width == self.width,
            now.height == self.height,
            self.contains(x, y),
            self.live(x, y),
            self.annotated_upto(now.cells, position(self.width as int, x, y)),
        ensures
            now.live(x, y),
            now.neighbours(x, y) == self.neighbours(x, y),
    {
        self.lemma_place_keeps(now, x, y, -1, -1);
        self.lemma_place_keeps(now, x, y, 0, -1);
        self.lemma_place_keeps(now, x, y, 1, -1);
        self.lemma_place_keeps(now, x, y, -1, 0);
        self.lemma_place_keeps(now, x, y, 0, 0);
        self.lemma_place_keeps(now, x, y, 1, 0);
        self.lemma_place_keeps(now, x, y, -1, 1);
        self.lemma_place_keeps(now, x, y, 0, 1);
        self.lemma_place_keeps(now, x, y, 1, 1);
        lemma_position_in_range(self.width as int, self.height as int, x, y);
    }
}

} // verus!
