//! The mathematical model of a game: its grid as a sequence of cell states,
//! and what each operation of the game makes of it.

use vstd::prelude::*;
use crate::event::{CallbackEvent, CallbackInfo, CellInfo};
use crate::torus::{position, wrap};

verus! {

/// A grid of cell states with its generation count.
///
/// `cells` holds the rows one after another. A state of zero is a dead cell,
/// any other state a live one.
pub struct Board {
    pub width: nat,
    pub height: nat,
    pub generation: nat,
    pub cells: Seq<u8>,
}

/// How many of `cells` are live.
pub open spec fn count_live(cells: Seq<u8>) -> nat
    decreases cells.len(),
{
    if cells.len() == 0 {
        0
    } else {
        count_live(cells.drop_last()) + if cells.last() > 0 {
            1nat
        } else {
            0nat
        }
    }
}

/// Whether a cell that is live or not, as `live` says, passes `filter`:
/// `None` lets every cell pass, `Some(b)` those whose liveness is `b`.
pub open spec fn passes(filter: Option<bool>, live: bool) -> bool {
    match filter {
        None => true,
        Some(wanted) => wanted == live,
    }
}

impl Board {
    /// Both sides are positive and `cells` holds one state for each cell.
    pub open spec fn wf(self) -> bool {
        &&& self.width > 0
        &&& self.height > 0
        &&& self.cells.len() == self.width * self.height
    }

    /// The board of the given size on which nothing lives, at generation 0.
    pub open spec fn blank(width: nat, height: nat) -> Board {
        Board { width, height, generation: 0, cells: Seq::new(width * height, |i: int| 0u8) }
    }

    /// Column `x` of row `y` lies on the board.
    pub open spec fn contains(self, x: int, y: int) -> bool {
        0 <= x < self.width && 0 <= y < self.height
    }

    /// The state stored for column `x` of row `y`.
    pub open spec fn raw(self, x: int, y: int) -> u8 {
        self.cells[position(self.width as int, x, y)]
    }

    /// The cell in column `x` of row `y` is live.
    pub open spec fn live(self, x: int, y: int) -> bool {
        self.raw(x, y) > 0
    }

    /// The number of live cells.
    pub open spec fn population(self) -> nat {
        count_live(self.cells)
    }

    /// 1 if the cell that `(i, j)` denotes is live, else 0. `i` and `j` may lie
    /// one step off the board; they are folded back onto it.
    pub open spec fn occupied(self, i: int, j: int) -> int {
        if self.live(wrap(i, self.width as int), wrap(j, self.height as int)) {
            1
        } else {
            0
        }
    }

    /// The live cells among the three places of row `j` around column `x`.
    pub open spec fn row_of_three(self, x: int, j: int) -> int {
        self.occupied(x - 1, j) + self.occupied(x, j) + self.occupied(x + 1, j)
    }

    /// The live cells among the nine places of the block centred on `(x, y)`,
    /// each place counted for itself even where two of them fold onto one cell.
    pub open spec fn block_of_nine(self, x: int, y: int) -> int {
        self.row_of_three(x, y - 1) + self.row_of_three(x, y) + self.row_of_three(x, y + 1)
    }

    /// The live neighbours of `(x, y)`: the block around it without the centre.
    pub open spec fn neighbours(self, x: int, y: int) -> int {
        self.block_of_nine(x, y) - if self.live(x, y) {
            1int
        } else {
            0int
        }
    }

    /// The state of `(x, y)` one generation on: a live cell stays with two or
    /// three live neighbours, a dead one is born with exactly three.
    pub open spec fn successor(self, x: int, y: int) -> u8 {
        let n = self.neighbours(x, y);
        if self.live(x, y) {
            if n == 2 || n == 3 {
                1
            } else {
                0
            }
        } else {
            if n == 3 {
                1
            } else {
                0
            }
        }
    }

    /// The board one generation on. Every cell follows from the board as it
    /// is now, none from a cell that has already moved on.
    pub open spec fn evolved(self) -> Board {
        Board {
            width: self.width,
            height: self.height,
            generation: self.generation + 1,
            cells: Seq::new(
                self.cells.len(),
                |i: int| self.successor(i % (self.width as int), i / (self.width as int)),
            ),
        }
    }

    /// The board after a write of `live` to column `x` of row `y`.
    pub open spec fn with_cell(self, x: int, y: int, live: bool) -> Board {
        Board {
            width: self.width,
            height: self.height,
            generation: self.generation,
            cells: self.cells.update(
                position(self.width as int, x, y),
                if live {
                    1u8
                } else {
                    0u8
                },
            ),
        }
    }

    /// The board of the same size on which nothing lives, at generation 0.
    pub open spec fn cleared(self) -> Board {
        Board::blank(self.width, self.height)
    }

    /// The board on which each live cell stores the number of its live
    /// neighbours, and each dead cell zero.
    pub open spec fn annotated(self) -> Board {
        Board {
            width: self.width,
            height: self.height,
            generation: self.generation,
            cells: Seq::new(
                self.cells.len(),
                |i: int|
                    if self.cells[i] > 0 {
                        self.neighbours(i % (self.width as int), i / (self.width as int)) as u8
                    } else {
                        0u8
                    },
            ),
        }
    }

    /// Every state is 0 or 1.
    pub open spec fn binary(self) -> bool {
        forall|i: int| 0 <= i < self.cells.len() ==> #[trigger] self.cells[i] <= 1
    }

    /// What an observer is told of this board after a change of kind `event`.
    pub open spec fn snapshot(self, event: CallbackEvent, cell: Option<CellInfo>) -> CallbackInfo {
        CallbackInfo {
            event,
            generation: self.generation as usize,
            width: self.width as usize,
            height: self.height as usize,
            num_cells: self.population() as usize,
            cell,
        }
    }

    /// The cells from position `from` on, row by row and each with its column,
    /// its row and its liveness, less those that `filter` holds back.
    pub open spec fn listing_from(self, from: int, filter: Option<bool>) -> Seq<
        (usize, usize, bool),
    >
        decreases self.cells.len() - from,
    {
        if 0 <= from < self.cells.len() {
            let live = self.cells[from] > 0;
            let rest = self.listing_from(from + 1, filter);
            if passes(filter, live) {
                seq![
                    ((from % (self.width as int)) as usize, (from / (self.width as int)) as usize, live),
                ] + rest
            } else {
                rest
            }
        } else {
            Seq::empty()
        }
    }

    /// All cells that `filter` lets pass, row by row.
    pub open spec fn listing(self, filter: Option<bool>) -> Seq<(usize, usize, bool)> {
        self.listing_from(0, filter)
    }

    /// As `listing_from`, with the stored state of each cell in place of its
    /// liveness.
    pub open spec fn raw_listing_from(self, from: int, filter: Option<bool>) -> Seq<
        (usize, usize, u8),
    >
        decreases self.cells.len() - from,
    {
        if 0 <= from < self.cells.len() {
            let state = self.cells[from];
            let rest = self.raw_listing_from(from + 1, filter);
            if passes(filter, state > 0) {
                seq![
                    ((from % (self.width as int)) as usize, (from / (self.width as int)) as usize, state),
                ] + rest
            } else {
                rest
            }
        } else {
            Seq::empty()
        }
    }

    /// All cells that `filter` lets pass, row by row, with their stored states.
    pub open spec fn raw_listing(self, filter: Option<bool>) -> Seq<(usize, usize, u8)> {
        self.raw_listing_from(0, filter)
    }
}

/// Writing one state changes the count of live cells by what that one cell
/// gains or loses.
pub proof fn lemma_count_live_update(cells: Seq<u8>, i: int, state: u8)
    requires
        0 <= i < cells.len(),
    ensures
        count_live(cells.update(i, state)) + (if cells[i] > 0 {
            1int
        } else {
            0int
        }) == count_live(cells) + (if state > 0 {
            1int
        } else {
            0int
        }),
    decreases cells.len(),
{
    let after = cells.update(i, state);
    if i == cells.len() - 1 {
        assert(after.drop_last() =~= cells.drop_last());
    } else {
        assert(after.drop_last() =~= cells.drop_last().update(i, state));
        lemma_count_live_update(cells.drop_last(), i, state);
    }
}

/// Where every cell is dead the count of live cells is zero, and the other
/// way round.
pub proof fn lemma_count_live_zero(cells: Seq<u8>)
    ensures
        count_live(cells) == 0 <==> (forall|i: int| 0 <= i < cells.len() ==> cells[i] == 0),
    decreases cells.len(),
{
    if cells.len() > 0 {
        let front = cells.drop_last();
        lemma_count_live_zero(front);
        if count_live(cells) == 0 {
            assert forall|i: int| 0 <= i < cells.len() implies cells[i] == 0 by {
                if i < cells.len() - 1 {
                    assert(front[i] == cells[i]);
                }
            }
        }
        if forall|i: int| 0 <= i < cells.len() ==> cells[i] == 0 {
            assert forall|i: int| 0 <= i < front.len() implies front[i] == 0 by {
                assert(front[i] == cells[i]);
            }
            assert(cells.last() == cells[cells.len() - 1]);
        }
    }
}

impl Board {
    /// A cell of the board has between 0 and 8 live neighbours.
    pub proof fn lemma_neighbours_bound(self, x: int, y: int)
        requires
            self.contains(x, y),
        ensures
            0 <= self.neighbours(x, y) <= 8,
    {
    }
}

} // verus!
