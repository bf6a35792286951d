//! The game itself: a grid, its generation count and its one observer.

use vstd::prelude::*;
use crate::board::{count_live, Board};
use crate::chance::{draw_between, state_for_draw, DRAW_LIMIT};
use crate::event::{CallbackEvent, CallbackInfo, CellInfo, Observer};
use crate::laws::{law_blank_board_is_empty, law_reset_empties};
use crate::torus::{lemma_position_in_range, lemma_position_split, position, wrap};

verus! {

/// A Game of Life on a grid of fixed size whose edges wrap round.
///
/// Every write, every generation and every reset ends by handing the
/// observer one snapshot of the game as it then stands.
pub struct LifeGame {
    pub(crate) generation: usize,
    pub(crate) world: Vec<u8>,
    pub(crate) width: usize,
    pub(crate) height: usize,
    pub(crate) callback: Box<dyn Observer>,
    pub(crate) sent: Ghost<Seq<CallbackInfo>>,
}

impl View for LifeGame {
    type V = Board;

    closed spec fn view(&self) -> Board {
        Board {
            width: self.width as nat,
            height: self.height as nat,
            generation: self.generation as nat,
            cells: self.world@,
        }
    }
}

impl LifeGame {
    /// The grid is a well-formed board small enough to be stored, and the
    /// observer is ready.
    pub open spec fn wf(&self) -> bool {
        &&& self@.wf()
        &&& self@.cells.len() <= isize::MAX
        &&& self.listening()
    }

    /// The observer in the slot may be handed any snapshot.
    pub closed spec fn listening(&self) -> bool {
        self.callback.attentive()
    }

    /// The snapshots handed to observers so far, oldest first.
    pub closed spec fn notified(&self) -> Seq<CallbackInfo> {
        self.sent@
    }

    /// What the observer in the slot promises of a call that hands it
    /// `info`: for a callback, what it ensures of that call.
    pub closed spec fn answers(&self, info: CallbackInfo) -> bool {
        self.callback.answer(info)
    }

    /// This game has the observer that `before` had, and since `before` it
    /// has handed it the snapshots `told`, each once and in this order, and
    /// none besides.
    pub open spec fn told_since(&self, before: &LifeGame, told: Seq<CallbackInfo>) -> bool {
        &&& self.notified() == before.notified() + told
        &&& forall|info: CallbackInfo| self.answers(info) == before.answers(info)
        &&& forall|i: int| 0 <= i < told.len() ==> self.answers(#[trigger] told[i])
    }

    /// A game of the given size on which nothing lives, at generation 0. No
    /// observer hears of it: the slot holds one that ignores what it is told.
    ///
    /// Both sides must be positive, and the grid must have no more cells than
    /// a vector can hold.
    pub fn new(width: usize, height: usize) -> (game: LifeGame)
        requires
            width > 0,
            height > 0,
            width * height <= isize::MAX,
        ensures
            game.wf(),
            game@ == Board::blank(width as nat, height as nat),
            game@.population() == 0,
            forall|x: int, y: int| game@.contains(x, y) ==> !#[trigger] game@.live(x, y),
            game.notified() == Seq::<CallbackInfo>::empty(),
    {
        let len: usize = width * height;
        let world: Vec<u8> = vec![0u8; len];
        let silent = |_info: CallbackInfo| {};
        let game = LifeGame::assemble(0, world, width, height, Ghost(Seq::empty()), silent);
        proof {
            assert(game@.cells =~= Board::blank(width as nat, height as nat).cells);
            law_blank_board_is_empty(width as nat, height as nat);
        }
        game
    }

    /// Puts `callback` in the observer slot in place of what was there. From
    /// now on it is `callback` that hears of every change.
    pub fn set_callback<F: FnMut(CallbackInfo) + 'static>(self, callback: F) -> (game: Self)
        requires
            self.wf(),
            forall|info: CallbackInfo| call_requires(callback, (info,)),
        ensures
            game.wf(),
            game@ == self@,
            game.notified() == self.notified(),
            forall|info: CallbackInfo| game.answers(info) == call_ensures(callback, (info,), ()),
    {
        LifeGame::assemble(
            self.generation,
            self.world,
            self.width,
            self.height,
            self.sent,
            callback,
        )
    }

    /// The width of the grid.
    pub fn width(&self) -> (width: usize)
        ensures
            width == self@.width,
    {
        self.width
    }

    /// The height of the grid.
    pub fn height(&self) -> (height: usize)
        ensures
            height == self@.height,
    {
        self.height
    }

    /// The number of generations since the game was made or last reset.
    pub fn generation(&self) -> (generation: usize)
        ensures
            generation == self@.generation,
    {
        self.generation
    }

    /// The number of live cells, counted afresh over the whole grid. A cell
    /// counts once, whatever state above zero it stores.
    pub fn num_cells(&self) -> (count: usize)
        ensures
            count == self@.population(),
    {
        let mut count: usize = 0;
        let mut i: usize = 0;
        while i < self.world.len()
            invariant
                i <= self.world.len(),
                count == count_live(self.world@.take(i as int)),
                count <= i,
            decreases self.world.len() - i,
        {
            proof {
                let upto = self.world@.take(i + 1);
                assert(upto.drop_last() =~= self.world@.take(i as int));
                assert(upto.last() == self.world@[i as int]);
            }
            if self.world[i] > 0 {
                count = count + 1;
            }
            i = i + 1;
        }
        assert(self.world@.take(i as int) =~= self.world@);
        count
    }

    /// The position of column `x`, row `y` in the stored grid.
    pub fn xy2i(&self, x: usize, y: usize) -> (i: usize)
        requires
            self.wf(),
            self@.contains(x as int, y as int),
        ensures
            i == position(self@.width as int, x as int, y as int),
            i < self@.cells.len(),
    {
        proof {
            lemma_position_in_range(self.width as int, self.height as int, x as int, y as int);
            assert(self.width * y <= self.width * y + x);
        }
        (self.width * y) + x
    }

    /// The state stored for column `x`, row `y`.
    pub fn get_as_u8(&self, x: usize, y: usize) -> (state: u8)
        requires
            self.wf(),
            self@.contains(x as int, y as int),
        ensures
            state == self@.raw(x as int, y as int),
    {
        let i: usize = self.xy2i(x, y);
        self.world[i]
    }

    /// Whether the cell in column `x`, row `y` is live.
    pub fn get(&self, x: usize, y: usize) -> (live: bool)
        requires
            self.wf(),
            self@.contains(x as int, y as int),
        ensures
            live == self@.live(x as int, y as int),
    {
        let live: u8 = self.get_as_u8(x, y);
        live > 0
    }

    /// Stores `live` as the state of column `x`, row `y`. Nobody is told.
    fn set_u8(&mut self, x: usize, y: usize, live: u8)
        requires
            old(self).wf(),
            old(self)@.contains(x as int, y as int),
        ensures
            final(self).wf(),
            final(self).told_since(old(self), Seq::empty()),
            final(self)@ == (Board {
                cells: old(self)@.cells.update(
                    position(old(self)@.width as int, x as int, y as int),
                    live,
                ),
                ..old(self)@
            }),
    {
        let i: usize = self.xy2i(x, y);
        self.world[i] = live;
    }

    /// Writes `live` to the cell in column `x`, row `y`, and tells the
    /// observer of the write.
    pub fn set(&mut self, x: usize, y: usize, live: bool) -> (game: &Self)
        requires
            old(self).wf(),
            old(self)@.contains(x as int, y as int),
        ensures
            final(self).wf(),
            final(self)@ == old(self)@.with_cell(x as int, y as int, live),
            final(self)@.live(x as int, y as int) == live,
            final(self).told_since(
                old(self),
                seq![final(self)@.snapshot(CallbackEvent::SetCell, Some(CellInfo { x, y, live }))],
            ),
            *game == *final(self),
    {
        let live: u8 = if live {
            1
        } else {
            0
        };
        proof {
            lemma_position_in_range(self.width as int, self.height as int, x as int, y as int);
        }
        self.set_u8(x, y, live);
        self.on_set(x, y, live);
        self
    }

    /// Folds a coordinate that may lie off a side of `max` places back onto
    /// it: see [`wrap`]. A coordinate below zero must not lie further off
    /// than the side is long, so that the fold of it is no longer below zero.
    pub fn coordinate_normalize(n: isize, max: usize) -> (place: usize)
        requires
            n < 0 ==> max <= isize::MAX && n + max >= 0,
        ensures
            place == wrap(n as int, max as int),
    {
        if n < 0 {
            ((max as isize) + n) as usize
        } else {
            let n: usize = n as usize;
            if n >= max {
                n - max
            } else {
                n
            }
        }
    }

    /// The number of live neighbours of the cell in column `x`, row `y`:
    /// the live cells in the block of nine around it, less the cell itself.
    pub fn neighbors_lives(&self, x: usize, y: usize) -> (count: u8)
        requires
            self.wf(),
            self@.contains(x as int, y as int),
        ensures
            count == self@.neighbours(x as int, y as int),
            count <= 8,
    {
        proof {
            lemma_position_in_range(self.width as int, self.height as int, x as int, y as int);
            lemma_position_in_range(
                self.width as int,
                self.height as int,
                self.width - 1,
                self.height - 1,
            );
            assert(self.width <= self.width * self.height && self.height <= self.width
                * self.height) by (nonlinear_arith)
                requires
                    self.width > 0,
                    self.height > 0,
            ;
        }
        let x: isize = x as isize;
        let y: isize = y as isize;
        let width: usize = self.width();
        let height: usize = self.height();

        let mut count: u8 = 0;
        let mut rows: isize = 0;
        while rows < 3
            invariant
                self.wf(),
                self@.contains(x as int, y as int),
                width == self@.width,
                height == self@.height,
                width <= isize::MAX,
                height <= isize::MAX,
                0 <= rows <= 3,
                count == block_so_far(self@, x as int, y as int, rows as int),
                count <= 3 * rows,
            decreases 3 - rows,
        {
            let j: isize = y - 1 + rows;
            let mut places: isize = 0;
            while places < 3
                invariant
                    self.wf(),
                    self@.contains(x as int, y as int),
                    width == self@.width,
                    height == self@.height,
                    width <= isize::MAX,
                    height <= isize::MAX,
                    0 <= rows < 3,
                    j == y - 1 + rows,
                    0 <= places <= 3,
                    count == block_so_far(self@, x as int, y as int, rows as int) + row_so_far(
                        self@,
                        x as int,
                        j as int,
                        places as int,
                    ),
                    count <= 3 * rows + places,
                decreases 3 - places,
            {
                let i: isize = x - 1 + places;
                let i: usize = LifeGame::coordinate_normalize(i, width);
                let j: usize = LifeGame::coordinate_normalize(j, height);
                if self.get(i, j) {
                    count += 1;
                }
                places += 1;
            }
            rows += 1;
        }
        if self.get(x as usize, y as usize) {
            count -= 1;
        }
        count
    }

    /// The state of the cell in column `x`, row `y` one generation on.
    pub fn cell_evolution(&self, x: usize, y: usize) -> (state: u8)
        requires
            self.wf(),
            self@.contains(x as int, y as int),
        ensures
            state == self@.successor(x as int, y as int),
    {
        let live: bool = self.get(x, y);
        let count: u8 = self.neighbors_lives(x, y);

        if live {
            match count {
                2 | 3 => 1,
                0 | 1 => 0,
                _ => 0,
            }
        } else {
            match count {
                3 => 1,
                _ => 0,
            }
        }
    }

    /// Moves the whole grid on by one generation, all cells at once, and
    /// tells the observer of it.
    pub fn evolution(&mut self) -> (game: &Self)
        requires
            old(self).wf(),
            old(self)@.generation < usize::MAX,
        ensures
            final(self).wf(),
            final(self)@ == old(self)@.evolved(),
            final(self)@.generation == old(self)@.generation + 1,
            final(self).told_since(
                old(self),
                seq![final(self)@.snapshot(CallbackEvent::Evolution, None)],
            ),
            *game == *final(self),
    {
        let ghost before = self@;
        let mut new = LifeGame::new(self.width, self.height);
        let mut y: usize = 0;
        while y < self.height
            invariant
                *self == *old(self),
                self.wf(),
                before == self@,
                new.wf(),
                new@.width == before.width,
                new@.height == before.height,
                y <= self.height,
                position(before.width as int, 0, y as int) <= before.cells.len(),
                new@.cells.take(position(before.width as int, 0, y as int))
                    == before.evolved().cells.take(position(before.width as int, 0, y as int)),
            decreases self.height - y,
        {
            let mut x: usize = 0;
            while x < self.width
                invariant
                    *self == *old(self),
                    self.wf(),
                    before == self@,
                    new.wf(),
                    new@.width == before.width,
                    new@.height == before.height,
                    y < self.height,
                    x <= self.width,
                    position(before.width as int, x as int, y as int) <= before.cells.len(),
                    new@.cells.take(position(before.width as int, x as int, y as int))
                        == before.evolved().cells.take(
                        position(before.width as int, x as int, y as int),
                    ),
                decreases self.width - x,
            {
                let live: u8 = self.cell_evolution(x, y);
                let ghost here = position(before.width as int, x as int, y as int);
                let ghost done = new@.cells;
                proof {
                    lemma_position_in_range(
                        before.width as int,
                        before.height as int,
                        x as int,
                        y as int,
                    );
                    lemma_position_split(before.width as int, x as int, y as int);
                }
                new.set_u8(x, y, live);
                proof {
                    let target = before.evolved().cells;
                    assert forall|i: int| 0 <= i < here + 1 implies new@.cells[i] == target[i] by {
                        if i < here {
                            assert(done.take(here)[i] == target.take(here)[i]);
                        }
                    }
                    assert(new@.cells.take(here + 1) =~= target.take(here + 1));
                }
                x += 1;
            }
            proof {
                assert(position(before.width as int, x as int, y as int) == position(
                    before.width as int,
                    0,
                    y + 1,
                )) by (nonlinear_arith)
                    requires
                        x == before.width,
                ;
            }
            y += 1;
        }
        proof {
            assert(position(before.width as int, 0, y as int) == before.cells.len())
                by (nonlinear_arith)
                requires
                    y == before.height,
                    before.cells.len() == before.width * before.height,
            ;
            assert(new@.cells =~= new@.cells.take(before.cells.len() as int));
            assert(before.evolved().cells =~= before.evolved().cells.take(
                before.cells.len() as int,
            ));
        }
        self.world = new.world;
        self.generation = self.generation() + 1;
        self.on_evolution();
        self
    }

    /// Writes over every live cell the number of its live neighbours, cell
    /// by cell in place. Each count comes out as it was on the grid before
    /// the first write.
    pub(crate) fn update_to_neighbors_lives(&mut self) -> (game: &Self)
        requires
            old(self).wf(),
        ensures
            final(self).wf(),
            final(self)@ == old(self)@.annotated(),
            final(self).told_since(old(self), Seq::empty()),
            *game == *final(self),
    {
        let ghost before = self@;
        let mut y: usize = 0;
        while y < self.height
            invariant
                self.wf(),
                before.wf(),
                self@.width == before.width,
                self@.height == before.height,
                self@.generation == before.generation,
                self.told_since(old(self), Seq::empty()),
                y <= self.height,
                before.annotated_upto(self@.cells, position(before.width as int, 0, y as int)),
            decreases self.height - y,
        {
            let mut x: usize = 0;
            while x < self.width
                invariant
                    self.wf(),
                    before.wf(),
                    self@.width == before.width,
                    self@.height == before.height,
                    self@.generation == before.generation,
                    self.told_since(old(self), Seq::empty()),
                    y < self.height,
                    x <= self.width,
                    before.annotated_upto(
                        self@.cells,
                        position(before.width as int, x as int, y as int),
                    ),
                decreases self.width - x,
            {
                proof {
                    lemma_position_in_range(
                        before.width as int,
                        before.height as int,
                        x as int,
                        y as int,
                    );
                    lemma_position_split(before.width as int, x as int, y as int);
                }
                if self.get(x, y) {
                    let lives: u8 = self.neighbors_lives(x, y);
                    proof {
                        before.lemma_count_keeps(self@, x as int, y as int);
                    }
                    self.set_u8(x, y, lives);
                }
                x += 1;
            }
            proof {
                assert(position(before.width as int, x as int, y as int) == position(
                    before.width as int,
                    0,
                    y + 1,
                )) by (nonlinear_arith)
                    requires
                        x == before.width,
                ;
            }
            y += 1;
        }
        proof {
            assert(position(before.width as int, 0, y as int) == before.cells.len())
                by (nonlinear_arith)
                requires
                    y == before.height,
                    before.cells.len() == before.width * before.height,
            ;
            assert(self@.cells =~= before.annotated().cells);
        }
        self
    }

    /// Sets every cell dead and the generation to 0, and tells the observer
    /// of the reset.
    pub fn reset(&mut self) -> (game: &Self)
        requires
            old(self).wf(),
        ensures
            final(self).wf(),
            final(self)@ == old(self)@.cleared(),
            final(self)@.generation == 0,
            final(self)@.population() == 0,
            final(self).told_since(
                old(self),
                seq![final(self)@.snapshot(CallbackEvent::Reset, None)],
            ),
            *game == *final(self),
    {
        let len: usize = self.width * self.height;
        self.world = vec![0u8; len];
        self.generation = 0;
        proof {
            assert(self@.cells =~= old(self)@.cleared().cells);
            law_reset_empties(old(self)@);
        }
        self.on_reset();
        self
    }

    /// Gives every cell a state by a draw of its own, sets the generation to
    /// 0, and tells the observer of the reset. Which cells live is a matter
    /// of chance; each is dead or alive with the state 0 or 1.
    pub fn reset_by_rand(&mut self) -> (game: &Self)
        requires
            old(self).wf(),
        ensures
            final(self).wf(),
            final(self)@.width == old(self)@.width,
            final(self)@.height == old(self)@.height,
            final(self)@.generation == 0,
            final(self)@.binary(),
            final(self).told_since(
                old(self),
                seq![final(self)@.snapshot(CallbackEvent::Reset, None)],
            ),
            *game == *final(self),
    {
        let ghost before = self@;
        let mut y: usize = 0;
        while y < self.height
            invariant
                self.wf(),
                self@.width == before.width,
                self@.height == before.height,
                self.told_since(old(self), Seq::empty()),
                y <= self.height,
                position(before.width as int, 0, y as int) <= self@.cells.len(),
                forall|i: int|
                    0 <= i < position(before.width as int, 0, y as int) ==> #[trigger] self@.cells[i]
                        <= 1,
            decreases self.height - y,
        {
            let mut x: usize = 0;
            while x < self.width
                invariant
                    self.wf(),
                    self@.width == before.width,
                    self@.height == before.height,
                    self.told_since(old(self), Seq::empty()),
                    y < self.height,
                    x <= self.width,
                    position(before.width as int, x as int, y as int) <= self@.cells.len(),
                    forall|i: int|
                        0 <= i < position(before.width as int, x as int, y as int)
                            ==> #[trigger] self@.cells[i] <= 1,
                decreases self.width - x,
            {
                let live: u8 = state_for_draw(draw_between(0, DRAW_LIMIT));
                proof {
                    lemma_position_in_range(
                        before.width as int,
                        before.height as int,
                        x as int,
                        y as int,
                    );
                }
                self.set_u8(x, y, live);
                x += 1;
            }
            proof {
                assert(position(before.width as int, x as int, y as int) == position(
                    before.width as int,
                    0,
                    y + 1,
                )) by (nonlinear_arith)
                    requires
                        x == before.width,
                ;
            }
            y += 1;
        }
        proof {
            assert(position(before.width as int, 0, y as int) == self@.cells.len())
                by (nonlinear_arith)
                requires
                    y == before.height,
                    self@.cells.len() == before.width * before.height,
            ;
        }
        self.generation = 0;
        self.on_reset();
        self
    }

    /// Hands `info` to the observer and keeps a record of it.
    fn fire(&mut self, info: CallbackInfo)
        requires
            old(self).wf(),
        ensures
            final(self).wf(),
            final(self)@ == old(self)@,
            final(self).told_since(old(self), seq![info]),
    {
        self.callback.observe(info);
        self.sent = Ghost(self.sent@.push(info));
        assert(self.sent@ =~= old(self).sent@ + seq![info]);
    }

    /// Tells the observer of a reset that has just been made.
    fn on_reset(&mut self)
        requires
            old(self).wf(),
        ensures
            final(self).wf(),
            final(self)@ == old(self)@,
            final(self).told_since(
                old(self),
                seq![old(self)@.snapshot(CallbackEvent::Reset, None)],
            ),
    {
        let num_cells: usize = self.num_cells();
        let info = CallbackInfo {
            event: CallbackEvent::Reset,
            generation: self.generation,
            width: self.width,
            height: self.height,
            num_cells,
            cell: None,
        };
        self.fire(info);
    }

    /// Tells the observer of a write of the state `live` that has just been
    /// made to column `x`, row `y`.
    fn on_set(&mut self, x: usize, y: usize, live: u8)
        requires
            old(self).wf(),
        ensures
            final(self).wf(),
            final(self)@ == old(self)@,
            final(self).told_since(
                old(self),
                seq![
                    old(self)@.snapshot(
                        CallbackEvent::SetCell,
                        Some(CellInfo { x, y, live: live == 1 }),
                    ),
                ],
            ),
    {
        let live: bool = live == 1;
        let num_cells: usize = self.num_cells();
        let info = CallbackInfo {
            event: CallbackEvent::SetCell,
            generation: self.generation,
            width: self.width,
            height: self.height,
            num_cells,
            cell: Some(CellInfo { x, y, live }),
        };
        self.fire(info);
    }

    /// Tells the observer of a generation that has just been made.
    fn on_evolution(&mut self)
        requires
            old(self).wf(),
        ensures
            final(self).wf(),
            final(self)@ == old(self)@,
            final(self).told_since(
                old(self),
                seq![old(self)@.snapshot(CallbackEvent::Evolution, None)],
            ),
    {
        let num_cells: usize = self.num_cells();
        let info = CallbackInfo {
            event: CallbackEvent::Evolution,
            generation: self.generation,
            width: self.width,
            height: self.height,
            num_cells,
            cell: None,
        };
        self.fire(info);
    }

    /// Puts a grid, a generation count and an observer together.
    fn assemble<F: FnMut(CallbackInfo) + 'static>(
        generation: usize,
        world: Vec<u8>,
        width: usize,
        height: usize,
        sent: Ghost<Seq<CallbackInfo>>,
        observer: F,
    ) -> (game: LifeGame)
        requires
            forall|info: CallbackInfo| call_requires(observer, (info,)),
        ensures
            game.listening(),
            game.notified() == sent@,
            forall|info: CallbackInfo| game.answers(info) == call_ensures(observer, (info,), ()),
            game@ == (Board {
                width: width as nat,
                height: height as nat,
                generation: generation as nat,
                cells: world@,
            }),
    {
        LifeGame { generation, world, width, height, callback: Box::new(observer), sent }
    }

    /// The view spelt out, for the modules of this crate that read the
    /// fields.
    pub(crate) proof fn lemma_view(&self)
        ensures
            self@ == (Board {
                width: self.width as nat,
                height: self.height as nat,
                generation: self.generation as nat,
                cells: self.world@,
            }),
    {
    }
}

/// The live cells among the first `done` places of the row of three at row
/// `j` around column `x`.
spec fn row_so_far(board: Board, x: int, j: int, done: int) -> int {
    if done <= 0 {
        0
    } else if done == 1 {
        board.occupied(x - 1, j)
    } else if done == 2 {
        board.occupied(x - 1, j) + board.occupied(x, j)
    } else {
        board.row_of_three(x, j)
    }
}

/// The live cells among the first `done` rows of the block of nine centred
/// on `(x, y)`.
spec fn block_so_far(board: Board, x: int, y: int, done: int) -> int {
    if done <= 0 {
        0
    } else if done == 1 {
        board.row_of_three(x, y - 1)
    } else if done == 2 {
        board.row_of_three(x, y - 1) + board.row_of_three(x, y)
    } else {
        board.block_of_nine(x, y)
    }
}

} // verus!
