//! A small library for running many independent two-player, turn-based
//! grid-game sessions, each addressed by an opaque key.
//!
//! The pieces, leaf first:
//! - [`callback_data`]: the codec between a typed command and its compact
//!   textual token (`join`, `restart`, `place:<x>:<y>`).
//! - [`board`]: the fixed 3x3 grid of optional marks with its win and draw
//!   predicates.
//! - [`game`]: the per-session state machine — seats, scores, phase — and all
//!   command validation and turn progression.
//! - [`store`]: the keyed map of sessions with get-or-create semantics.
//!
//! Everything here is sequential, value-level logic; a surrounding program
//! supplies the transport (where commands come from, how state is shown) and
//! whatever locking serialises the commands of one session.

pub mod board;
pub mod callback_data;
pub mod game;
pub mod store;
