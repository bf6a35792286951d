//! Conway's Game of Life on a grid of fixed size whose opposite edges are
//! joined, so that the grid has no border: it is a torus.
//!
//! A [`LifeGame`] owns the grid, counts the generations and keeps one
//! observer, which it tells of every change. What each operation does is
//! stated over a [`Board`], the grid as a sequence of cell states:
//!
//! - [`torus`]: coordinates on the joined grid and positions in its storage;
//! - [`board`]: the model, with the rule of the game as a function on it;
//! - [`census`]: why neighbours may be counted while the counts are written;
//! - [`event`]: what an observer is told;
//! - [`game`]: the game, its cells and its generations;
//! - [`iter`]: walks over the cells;
//! - [`chance`]: the draw behind a random reset;
//! - [`text`]: the game written out;
//! - [`laws`]: what holds of every board.

pub mod board;
pub mod census;
pub mod chance;
pub mod event;
pub mod game;
pub mod iter;
pub mod laws;
pub mod text;
pub mod torus;

pub use board::Board;
pub use event::{CallbackEvent, CallbackInfo, CellInfo};
pub use game::LifeGame;
pub use iter::{LifeGameIterBool, LifeGameIterU8};
