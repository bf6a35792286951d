//! What holds of every board, whatever its size and whatever lives on it.
//!
//! The operations of a game are stated over [`Board`]; the statements here
//! are about those operations and how they work together.

use vstd::prelude::*;
use vstd::arithmetic::div_mod::lemma_fundamental_div_mod_converse;
use crate::board::{count_live, lemma_count_live_update, lemma_count_live_zero, passes, Board};
use crate::torus::{lemma_position_in_range, lemma_position_injective, lemma_position_join};
use crate::torus::{lemma_position_split, lemma_wrap_step_back, position, wrap};

verus! {

/// A blank board is well formed, stands at generation 0 and holds no live
/// cell.
pub proof fn law_blank_board_is_empty(width: nat, height: nat)
    requires
        width > 0,
        height > 0,
    ensures
        Board::blank(width, height).wf(),
        Board::blank(width, height).generation == 0,
        Board::blank(width, height).population() == 0,
        forall|x: int, y: int|
            Board::blank(width, height).contains(x, y) ==> !#[trigger] Board::blank(
                width,
                height,
            ).live(x, y),
{
    let blank = Board::blank(width, height);
    lemma_count_live_zero(blank.cells);
    assert forall|x: int, y: int| blank.contains(x, y) implies !#[trigger] blank.live(x, y) by {
        lemma_position_in_range(width as int, height as int, x, y);
    }
}

/// A cell reads back as it was last written.
pub proof fn law_write_then_read(board: Board, x: int, y: int, live: bool)
    requires
        board.wf(),
        board.contains(x, y),
    ensures
        board.with_cell(x, y, live).wf(),
        board.with_cell(x, y, live).live(x, y) == live,
{
    lemma_position_in_range(board.width as int, board.height as int, x, y);
}

/// A write to one cell leaves every other cell, the size and the generation
/// as they were.
pub proof fn law_write_keeps_the_rest(board: Board, x: int, y: int, live: bool, u: int, v: int)
    requires
        board.wf(),
        board.contains(x, y),
        board.contains(u, v),
        u != x || v != y,
    ensures
        board.with_cell(x, y, live).raw(u, v) == board.raw(u, v),
        board.with_cell(x, y, live).width == board.width,
        board.with_cell(x, y, live).height == board.height,
        board.with_cell(x, y, live).generation == board.generation,
{
    lemma_position_in_range(board.width as int, board.height as int, x, y);
    lemma_position_in_range(board.width as int, board.height as int, u, v);
    if position(board.width as int, x, y) == position(board.width as int, u, v) {
        lemma_position_injective(board.width as int, x, y, u, v);
    }
}

/// The count of live cells follows every write exactly: it goes up by one
/// where a dead cell is brought to life, down by one where a live cell is
/// killed, and stays where the write changes nothing.
pub proof fn law_write_moves_population(board: Board, x: int, y: int, live: bool)
    requires
        board.wf(),
        board.contains(x, y),
    ensures
        board.with_cell(x, y, live).population() == board.population() + (if live {
            1int
        } else {
            0int
        }) - (if board.live(x, y) {
            1int
        } else {
            0int
        }),
{
    lemma_position_in_range(board.width as int, board.height as int, x, y);
    lemma_count_live_update(
        board.cells,
        position(board.width as int, x, y),
        if live {
            1u8
        } else {
            0u8
        },
    );
}

/// After a reset nothing lives and the generation is 0, whatever the board
/// went through before.
pub proof fn law_reset_empties(board: Board)
    requires
        board.wf(),
    ensures
        board.cleared().wf(),
        board.cleared().width == board.width,
        board.cleared().height == board.height,
        board.cleared().generation == 0,
        board.cleared().population() == 0,
        forall|x: int, y: int|
            board.contains(x, y) ==> !#[trigger] board.cleared().live(x, y),
{
    law_blank_board_is_empty(board.width, board.height);
    let blank = Board::blank(board.width, board.height);
    assert forall|x: int, y: int| board.contains(x, y) implies !#[trigger] board.cleared().live(
        x,
        y,
    ) by {
        assert(blank.contains(x, y));
        assert(!blank.live(x, y));
    }
}

/// A second reset straight after a first changes nothing.
pub proof fn law_reset_twice_is_once(board: Board)
    ensures
        board.cleared().cleared() == board.cleared(),
{
}

/// One generation keeps the size of the board and moves its generation
/// count on by exactly one, whatever lives on it.
pub proof fn law_generation_counts_up(board: Board)
    requires
        board.wf(),
    ensures
        board.evolved().wf(),
        board.evolved().width == board.width,
        board.evolved().height == board.height,
        board.evolved().generation == board.generation + 1,
{
}

/// The state of each cell one generation on is its successor on the board
/// as it was.
pub proof fn law_cells_move_together(board: Board, x: int, y: int)
    requires
        board.wf(),
        board.contains(x, y),
    ensures
        board.evolved().raw(x, y) == board.successor(x, y),
        board.evolved().live(x, y) == (board.neighbours(x, y) == 3 || (board.live(x, y)
            && board.neighbours(x, y) == 2)),
{
    lemma_position_in_range(board.width as int, board.height as int, x, y);
    lemma_position_split(board.width as int, x, y);
}

/// A board that one generation leaves without a live state in any cell has
/// a population of zero.
proof fn lemma_no_successor_no_life(board: Board)
    requires
        board.wf(),
        forall|x: int, y: int| board.contains(x, y) ==> #[trigger] board.successor(x, y) == 0,
    ensures
        board.evolved().population() == 0,
        forall|x: int, y: int| board.contains(x, y) ==> !#[trigger] board.evolved().live(x, y),
{
    let next = board.evolved();
    assert forall|i: int| 0 <= i < next.cells.len() implies next.cells[i] == 0 by {
        lemma_position_join(board.width as int, board.height as int, i);
        assert(board.contains(i % (board.width as int), i / (board.width as int)));
    }
    lemma_count_live_zero(next.cells);
    assert forall|x: int, y: int| board.contains(x, y) implies !#[trigger] next.live(x, y) by {
        lemma_position_in_range(board.width as int, board.height as int, x, y);
    }
}

/// A coordinate no further than one ring length outside `0..max` folds to the
/// place that its remainder by `max` names: one step off an edge leads to
/// the far edge, as on a ring.
pub proof fn law_fold_is_remainder(n: int, max: int)
    requires
        max > 0,
        -max <= n < 2 * max,
    ensures
        0 <= wrap(n, max) < max,
        wrap(n, max) == n % max,
{
    let r = wrap(n, max);
    let q: int = if n < 0 {
        -1
    } else if n >= max {
        1
    } else {
        0
    };
    assert(n == q * max + r) by (nonlinear_arith)
        requires
            q == -1 || q == 0 || q == 1,
            n == r + (if q == -1 {
                -max
            } else if q == 1 {
                max
            } else {
                0
            }),
    ;
    lemma_fundamental_div_mod_converse(n, max, q, r);
}

/// The edges of the board are joined: the row above the top row is the
/// bottom row, the row below the bottom row is the top row, and the columns
/// beside the left and the right edge are the columns at the far edges.
pub proof fn law_edges_meet(board: Board, i: int, j: int)
    requires
        board.wf(),
    ensures
        board.occupied(i, -1) == board.occupied(i, board.height - 1),
        board.occupied(i, board.height as int) == board.occupied(i, 0),
        board.occupied(-1, j) == board.occupied(board.width - 1, j),
        board.occupied(board.width as int, j) == board.occupied(0, j),
{
}

/// A cell with fewer than two live neighbours is dead one generation on,
/// whether it lived or not.
pub proof fn law_lonely_cell_dies(board: Board, x: int, y: int)
    requires
        board.wf(),
        board.contains(x, y),
        board.neighbours(x, y) < 2,
    ensures
        !board.evolved().live(x, y),
{
    law_cells_move_together(board, x, y);
}

/// Where no cell has as many as two live neighbours, nothing is left alive
/// one generation on.
pub proof fn law_underpopulation(board: Board)
    requires
        board.wf(),
        forall|x: int, y: int| board.contains(x, y) ==> #[trigger] board.neighbours(x, y) < 2,
    ensures
        board.evolved().population() == 0,
        forall|x: int, y: int| board.contains(x, y) ==> !#[trigger] board.evolved().live(x, y),
{
    assert forall|x: int, y: int| board.contains(x, y) implies #[trigger] board.successor(x, y)
        == 0 by {
        assert(board.neighbours(x, y) < 2);
    }
    lemma_no_successor_no_life(board);
}

/// On a board where every cell lives, every cell has eight live neighbours,
/// and nothing is left alive one generation on.
pub proof fn law_overpopulation(board: Board)
    requires
        board.wf(),
        forall|x: int, y: int| board.contains(x, y) ==> #[trigger] board.live(x, y),
    ensures
        forall|x: int, y: int| board.contains(x, y) ==> #[trigger] board.neighbours(x, y) == 8,
        board.evolved().population() == 0,
        forall|x: int, y: int| board.contains(x, y) ==> !#[trigger] board.evolved().live(x, y),
{
    let w = board.width as int;
    let h = board.height as int;
    assert forall|x: int, y: int| board.contains(x, y) implies #[trigger] board.neighbours(x, y)
        == 8 by {
        lemma_wrap_step_back(x, -1, w);
        lemma_wrap_step_back(x, 1, w);
        lemma_wrap_step_back(y, -1, h);
        lemma_wrap_step_back(y, 1, h);
    }
    assert forall|x: int, y: int| board.contains(x, y) implies #[trigger] board.successor(x, y)
        == 0 by {
        assert(board.neighbours(x, y) == 8);
    }
    lemma_no_successor_no_life(board);
}

/// A single live cell on an otherwise empty board dies, and nothing is
/// born beside it, unless the board is a strip one cell wide and more than
/// one cell long: there the cell meets itself round the short side.
pub proof fn law_lone_cell_dies(board: Board, cx: int, cy: int)
    requires
        board.wf(),
        (board.width >= 2 && board.height >= 2) || (board.width == 1 && board.height == 1),
        board.contains(cx, cy),
        board.live(cx, cy),
        forall|x: int, y: int|
            board.contains(x, y) && (x != cx || y != cy) ==> !#[trigger] board.live(x, y),
    ensures
        board.evolved().population() == 0,
        forall|x: int, y: int| board.contains(x, y) ==> !#[trigger] board.evolved().live(x, y),
{
    let w = board.width as int;
    let h = board.height as int;
    if w == 1 && h == 1 {
        law_overpopulation(board);
    } else {
        assert forall|x: int, y: int| board.contains(x, y) implies #[trigger] board.successor(
            x,
            y,
        ) == 0 by {
            lemma_wrap_step_back(x, -1, w);
            lemma_wrap_step_back(x, 1, w);
            lemma_wrap_step_back(y, -1, h);
            lemma_wrap_step_back(y, 1, h);
        }
        lemma_no_successor_no_life(board);
    }
}

/// Killing one cell takes one off the count of live cells if the cell was
/// live, and nothing if it was dead.
proof fn lemma_kill(cells: Seq<u8>, i: int) -> (after: Seq<u8>)
    requires
        0 <= i < cells.len(),
    ensures
        after == cells.update(i, 0u8),
        count_live(after) + (if cells[i] > 0 {
            1int
        } else {
            0int
        }) == count_live(cells),
{
    lemma_count_live_update(cells, i, 0u8);
    cells.update(i, 0u8)
}

/// On a board at least three cells wide, the three places of a row of three
/// are three different cells, and no more of them live than live in all.
proof fn lemma_row_within_population(board: Board, cells: Seq<u8>, x: int, y: int) -> (after: Seq<
    u8,
>)
    requires
        board.wf(),
        board.width >= 3,
        board.contains(x, y),
        cells.len() == board.cells.len(),
    ensures
        after.len() == cells.len(),
        count_live(after) + (Board { cells, ..board }).row_of_three(x, y) == count_live(cells),
        forall|u: int, v: int|
            board.contains(u, v) && v != y ==> after[position(board.width as int, u, v)]
                == #[trigger] cells[position(board.width as int, u, v)],
{
    let w = board.width as int;
    let h = board.height as int;
    lemma_wrap_step_back(x, -1, w);
    lemma_wrap_step_back(x, 1, w);
    let left = wrap(x - 1, w);
    let right = wrap(x + 1, w);
    lemma_position_in_range(w, h, left, y);
    lemma_position_in_range(w, h, x, y);
    lemma_position_in_range(w, h, right, y);
    let one = lemma_kill(cells, position(w, left, y));
    let two = lemma_kill(one, position(w, x, y));
    let three = lemma_kill(two, position(w, right, y));
    assert forall|u: int, v: int| board.contains(u, v) && v != y implies three[position(w, u, v)]
        == #[trigger] cells[position(w, u, v)] by {
        lemma_position_in_range(w, h, u, v);
        if position(w, u, v) == position(w, left, y) {
            lemma_position_injective(w, u, v, left, y);
        }
        if position(w, u, v) == position(w, x, y) {
            lemma_position_injective(w, u, v, x, y);
        }
        if position(w, u, v) == position(w, right, y) {
            lemma_position_injective(w, u, v, right, y);
        }
    }
    three
}

/// On a board at least three cells wide and high, the nine places of a
/// block are nine different cells, and no more of them live than live on
/// the whole board.
pub proof fn lemma_block_within_population(board: Board, x: int, y: int)
    requires
        board.wf(),
        board.width >= 3,
        board.height >= 3,
        board.contains(x, y),
    ensures
        board.block_of_nine(x, y) <= board.population(),
{
    let h = board.height as int;
    lemma_wrap_step_back(y, -1, h);
    lemma_wrap_step_back(y, 1, h);
    // Kill the rows of the block one after another. The rows are three
    // different rows, so each is still as it was when its turn comes, and
    // the count of live cells cannot go below zero.
    let one = lemma_row_within_population(board, board.cells, x, wrap(y - 1, h));
    let two = lemma_row_within_population(board, one, x, y);
    lemma_row_within_population(board, two, x, wrap(y + 1, h));
    assert((Board { cells: board.cells, ..board }) == board);
}

/// On a board at least three cells wide and high, one or two live cells
/// die out in one generation, wherever they lie, and nothing is born.
pub proof fn law_sparse_board_dies(board: Board)
    requires
        board.wf(),
        board.width >= 3,
        board.height >= 3,
        board.population() <= 2,
    ensures
        board.evolved().population() == 0,
        forall|x: int, y: int| board.contains(x, y) ==> !#[trigger] board.evolved().live(x, y),
{
    assert forall|x: int, y: int| board.contains(x, y) implies #[trigger] board.successor(x, y)
        == 0 by {
        lemma_block_within_population(board, x, y);
    }
    lemma_no_successor_no_life(board);
}

/// The cell at position `i`, as a walk reports it: its column, its row and
/// its stored state.
proof fn lemma_walk_item(board: Board, i: int)
    requires
        board.wf(),
        board.cells.len() <= usize::MAX,
        0 <= i < board.cells.len(),
    ensures
        ((i % (board.width as int)) as usize) == i % (board.width as int),
        ((i / (board.width as int)) as usize) == i / (board.width as int),
        board.contains(i % (board.width as int), i / (board.width as int)),
        position(board.width as int, i % (board.width as int), i / (board.width as int)) == i,
{
    lemma_position_join(board.width as int, board.height as int, i);
    assert(board.width <= board.width * board.height && board.height <= board.width
        * board.height) by (nonlinear_arith)
        requires
            board.width > 0,
            board.height > 0,
    ;
}

/// A walk that lets every cell pass meets each cell of the board once, row
/// by row and within a row column by column, and reports it as it is.
pub proof fn law_walk_meets_every_cell(board: Board, from: int)
    requires
        board.wf(),
        board.cells.len() <= usize::MAX,
        0 <= from <= board.cells.len(),
    ensures
        board.listing_from(from, None).len() == board.cells.len() - from,
        board.raw_listing_from(from, None).len() == board.cells.len() - from,
        forall|k: int|
            0 <= k < board.cells.len() - from ==> {
                let cell = #[trigger] board.listing_from(from, None)[k];
                &&& board.contains(cell.0 as int, cell.1 as int)
                &&& position(board.width as int, cell.0 as int, cell.1 as int) == from + k
                &&& cell.2 == board.live(cell.0 as int, cell.1 as int)
            },
        forall|k: int|
            0 <= k < board.cells.len() - from ==> {
                let cell = #[trigger] board.raw_listing_from(from, None)[k];
                &&& board.contains(cell.0 as int, cell.1 as int)
                &&& position(board.width as int, cell.0 as int, cell.1 as int) == from + k
                &&& cell.2 == board.raw(cell.0 as int, cell.1 as int)
            },
    decreases board.cells.len() - from,
{
    if from < board.cells.len() {
        law_walk_meets_every_cell(board, from + 1);
        let rest = board.listing_from(from + 1, None);
        let raw_rest = board.raw_listing_from(from + 1, None);
        assert forall|k: int| 0 <= k < board.cells.len() - from implies {
            let cell = #[trigger] board.listing_from(from, None)[k];
            &&& board.contains(cell.0 as int, cell.1 as int)
            &&& position(board.width as int, cell.0 as int, cell.1 as int) == from + k
            &&& cell.2 == board.live(cell.0 as int, cell.1 as int)
        } by {
            if k > 0 {
                assert(board.listing_from(from, None)[k] == rest[k - 1]);
            } else {
                lemma_walk_item(board, from);
            }
        }
        assert forall|k: int| 0 <= k < board.cells.len() - from implies {
            let cell = #[trigger] board.raw_listing_from(from, None)[k];
            &&& board.contains(cell.0 as int, cell.1 as int)
            &&& position(board.width as int, cell.0 as int, cell.1 as int) == from + k
            &&& cell.2 == board.raw(cell.0 as int, cell.1 as int)
        } by {
            if k > 0 {
                assert(board.raw_listing_from(from, None)[k] == raw_rest[k - 1]);
            } else {
                lemma_walk_item(board, from);
            }
        }
    }
}

/// A walk for the live cells meets live cells only, and a walk for the dead
/// cells dead ones only.
pub proof fn law_walk_keeps_to_its_filter(board: Board, from: int, wanted: bool)
    requires
        board.wf(),
        0 <= from <= board.cells.len(),
    ensures
        forall|k: int|
            0 <= k < board.listing_from(from, Some(wanted)).len() ==> (#[trigger] board.listing_from(
                from,
                Some(wanted),
            )[k]).2 == wanted,
        forall|k: int|
            0 <= k < board.raw_listing_from(from, Some(wanted)).len() ==> ((
                #[trigger] board.raw_listing_from(from, Some(wanted))[k]).2 > 0) == wanted,
    decreases board.cells.len() - from,
{
    if from < board.cells.len() {
        law_walk_keeps_to_its_filter(board, from + 1, wanted);
        let rest = board.listing_from(from + 1, Some(wanted));
        let raw_rest = board.raw_listing_from(from + 1, Some(wanted));
        assert forall|k: int|
            0 <= k < board.listing_from(from, Some(wanted)).len() implies (
            #[trigger] board.listing_from(from, Some(wanted))[k]).2 == wanted by {
            if passes(Some(wanted), board.cells[from] > 0) && k > 0 {
                assert(board.listing_from(from, Some(wanted))[k] == rest[k - 1]);
            }
        }
        assert forall|k: int|
            0 <= k < board.raw_listing_from(from, Some(wanted)).len() implies ((
            #[trigger] board.raw_listing_from(from, Some(wanted))[k]).2 > 0) == wanted by {
            if passes(Some(wanted), board.cells[from] > 0) && k > 0 {
                assert(board.raw_listing_from(from, Some(wanted))[k] == raw_rest[k - 1]);
            }
        }
    }
}

} // verus!
