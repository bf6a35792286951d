//! Walks over the cells of a game, row by row.

use vstd::prelude::*;
use crate::game::LifeGame;
use crate::torus::lemma_position_join;

verus! {

/// A walk over the cells of a game that yields each cell's column, row and
/// liveness, and may pass over the live or the dead ones.
pub struct LifeGameIterBool<'a> {
    pub(crate) pos: usize,
    pub(crate) max: usize,
    pub(crate) live: Option<bool>,
    pub(crate) game: &'a LifeGame,
}

/// A walk over the cells of a game that yields each cell's column, row and
/// stored state, and may pass over the live or the dead ones.
pub struct LifeGameIterU8<'a> {
    pub(crate) pos: usize,
    pub(crate) max: usize,
    pub(crate) live: Option<bool>,
    pub(crate) game: &'a LifeGame,
}

impl LifeGame {
    /// A walk over the cells, row by row, that yields the column, the row
    /// and the liveness of each cell that `live` lets pass: every cell for
    /// `None`, else the live or the dead ones only.
    pub fn iter(&self, live: Option<bool>) -> (cells: LifeGameIterBool<'_>)
        requires
            self.wf(),
        ensures
            cells.wf(),
            cells.remaining() == self@.listing(live),
    {
        let iter = LifeGameIterBool {
            pos: 0,
            max: self.width() * self.height(),
            live: live,
            game: self,
        };
        iter
    }

    /// Writes over every live cell the number of its live neighbours, then
    /// gives a walk over the cells as they then stand, row by row, that
    /// yields the column, the row and the stored state of each cell that
    /// `live` lets pass. The counts stay on the grid.
    pub fn iter_as_u8(&mut self, live: Option<bool>) -> (cells: LifeGameIterU8<'_>)
        requires
            old(self).wf(),
        ensures
            final(self).wf(),
            final(self)@ == old(self)@.annotated(),
            final(self).told_since(old(self), Seq::empty()),
            cells.wf(),
            cells.remaining() == old(self)@.annotated().raw_listing(live),
    {
        self.update_to_neighbors_lives();
        let iter = LifeGameIterU8 {
            pos: 0,
            max: self.width() * self.height(),
            live: live,
            game: self,
        };
        iter
    }
}

impl<'a> LifeGameIterBool<'a> {
    /// The walk is over a well-formed game and has not run past its end.
    pub closed spec fn wf(&self) -> bool {
        &&& self.game.wf()
        &&& self.max == self.game@.cells.len()
        &&& self.pos <= self.max
    }

    /// The cells that are still to come, in the order in which they come.
    pub closed spec fn remaining(&self) -> Seq<(usize, usize, bool)> {
        self.game@.listing_from(self.pos as int, self.live)
    }

    /// The next cell that the filter lets pass, or `None` when none is left.
    pub fn next(&mut self) -> (item: Option<(usize, usize, bool)>)
        requires
            old(self).wf(),
        ensures
            final(self).wf(),
            match item {
                Some(cell) => {
                    &&& old(self).remaining().len() > 0
                    &&& cell == old(self).remaining()[0]
                    &&& final(self).remaining() == old(self).remaining().drop_first()
                },
                None => {
                    &&& old(self).remaining().len() == 0
                    &&& final(self).remaining().len() == 0
                },
            },
    {
        loop
            invariant
                self.wf(),
                self.game == old(self).game,
                self.live == old(self).live,
                self.remaining() == old(self).remaining(),
            decreases self.max - self.pos,
        {
            if self.pos >= self.max {
                return None;
            }
            let pos: usize = self.pos;
            self.pos += 1;
            proof {
                self.game.lemma_view();
            }

            let live: bool = self.game.world[pos] > 0;
            let wanted: bool = match self.live {
                None => true,
                Some(wanted) => wanted == live,
            };
            if wanted {
                proof {
                    lemma_position_join(
                        self.game@.width as int,
                        self.game@.height as int,
                        pos as int,
                    );
                }
                let x: usize = pos % self.game.width();
                let y: usize = pos / self.game.width();
                assert(old(self).remaining().drop_first() =~= self.remaining());
                return Some((x, y, live));
            }
        }
    }
}

impl<'a> LifeGameIterU8<'a> {
    /// The walk is over a well-formed game and has not run past its end.
    pub closed spec fn wf(&self) -> bool {
        &&& self.game.wf()
        &&& self.max == self.game@.cells.len()
        &&& self.pos <= self.max
    }

    /// The cells that are still to come, in the order in which they come.
    pub closed spec fn remaining(&self) -> Seq<(usize, usize, u8)> {
        self.game@.raw_listing_from(self.pos as int, self.live)
    }

    /// The next cell that the filter lets pass, or `None` when none is left.
    pub fn next(&mut self) -> (item: Option<(usize, usize, u8)>)
        requires
            old(self).wf(),
        ensures
            final(self).wf(),
            match item {
                Some(cell) => {
                    &&& old(self).remaining().len() > 0
                    &&& cell == old(self).remaining()[0]
                    &&& final(self).remaining() == old(self).remaining().drop_first()
                },
                None => {
                    &&& old(self).remaining().len() == 0
                    &&& final(self).remaining().len() == 0
                },
            },
    {
        loop
            invariant
                self.wf(),
                self.game == old(self).game,
                self.live == old(self).live,
                self.remaining() == old(self).remaining(),
            decreases self.max - self.pos,
        {
            if self.pos >= self.max {
                return None;
            }
            let pos: usize = self.pos;
            self.pos += 1;
            proof {
                self.game.lemma_view();
            }

            let cell: u8 = self.game.world[pos];
            let live: bool = cell > 0;
            let wanted: bool = match self.live {
                None => true,
                Some(wanted) => wanted == live,
            };
            if wanted {
                proof {
                    lemma_position_join(
                        self.game@.width as int,
                        self.game@.height as int,
                        pos as int,
                    );
                }
                let x: usize = pos % self.game.width();
                let y: usize = pos / self.game.width();
                assert(old(self).remaining().drop_first() =~= self.remaining());
                return Some((x, y, cell));
            }
        }
    }
}

} // verus!
