//! A chess move-search engine core: material evaluation, a depth-limited
//! alpha-beta search written as a resumable state machine, and the
//! line-oriented command protocol that drives it.
//!
//! The board itself (move generation, playing and taking back moves, FEN and
//! move notation) belongs to the caller. The library asks for what it needs
//! through [`search::Action`] and [`protocol::Reply`] values and is told the
//! outcome through [`search::Event`] and [`protocol::Input`] values, so every
//! decision of the engine is made, and proved, here.
//!
//! - [`evaluation`]: the value of the pieces and the score of a placement.
//! - [`game`]: what minimax and alpha-beta search compute, and the proof that
//!   they agree.
//! - [`search`]: the search as a state machine, one request at a time.
//! - [`run`]: the proof that the machine, run on a board that does as asked,
//!   ends on the best move, or on the alpha-beta value of the position, and
//!   leaves the board as it was.
//! - [`protocol`]: the command session.

pub mod evaluation;
pub mod game;
pub mod protocol;
pub mod run;
pub mod search;
