//! An interpreter for a minimal tape-based language: eight single-character
//! instructions act on a fixed tape of byte cells through a movable data
//! pointer, while an instruction pointer walks the source text character by
//! character. Looping re-scans the source on every skip; there is no jump
//! table and no intermediate representation.
//!
//! `state` holds the program state and its invariant, `semantics` the
//! mathematical small-step model the contracts speak of, `engine` the
//! verified execution loop, and `laws` the proved properties of the
//! semantics. `io` wraps the live output sink and the line-oriented input
//! source.

mod io;

pub mod engine;
pub mod laws;
pub mod semantics;
pub mod state;

pub use engine::execute_step;
pub use engine::find_matching_bracket;
pub use engine::interpret;
pub use engine::run_loop;
pub use engine::RunOutcome;
pub use state::InterpreterError;
pub use state::Program;
pub use state::MEMORY_SIZE;
