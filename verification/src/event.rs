//! What an observer of a game is told, and what it takes to be an observer.

use vstd::prelude::*;

verus! {

/// One cell as it stands after a write to it.
#[derive(Clone, Copy, Debug, PartialEq, Eq)]
pub struct CellInfo {
    pub x: usize,
    pub y: usize,
    pub live: bool,
}

/// The kind of change that an observer is told about.
#[derive(Clone, Copy, Debug, PartialEq, Eq)]
pub enum CallbackEvent {
    /// Every cell was rewritten and the generation count started again.
    Reset,
    /// One cell was written.
    SetCell,
    /// The grid moved on by one generation.
    Evolution,
}

/// The state of a game just after a change, as handed to its observer.
#[derive(Clone, Copy, Debug, PartialEq, Eq)]
pub struct CallbackInfo {
    pub event: CallbackEvent,
    pub generation: usize,
    pub width: usize,
    pub height: usize,
    pub num_cells: usize,
    /// The cell that was written, for a `SetCell`; `None` otherwise.
    pub cell: Option<CellInfo>,
}

/// Something that can be told of changes, over and over.
///
/// Every `FnMut(CallbackInfo)` is an observer; a game keeps exactly one.
pub(crate) trait Observer {
    /// The observer may be handed any snapshot.
    spec fn attentive(&self) -> bool;

    /// What the observer promises of a call that hands it `info`.
    spec fn answer(&self, info: CallbackInfo) -> bool;

    /// Hands one snapshot to the observer. It stays ready for the next.
    fn observe(&mut self, info: CallbackInfo)
        requires
            old(self).attentive(),
        ensures
            final(self).attentive(),
            old(self).answer(info),
            forall|other: CallbackInfo| final(self).answer(other) == old(self).answer(other),
    ;
}

impl<F: FnMut(CallbackInfo)> Observer for F {
    open spec fn attentive(&self) -> bool {
        forall|info: CallbackInfo| call_requires(*self, (info,))
    }

    open spec fn answer(&self, info: CallbackInfo) -> bool {
        call_ensures(*self, (info,), ())
    }

    fn observe(&mut self, info: CallbackInfo) {
        self(info)
    }
}

} // verus!
