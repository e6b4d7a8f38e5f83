//! A dialog engine for branching scripts written in a line-oriented
//! authoring language: a lexer and parser that turn source text into nodes,
//! and a resumable runner that walks the nodes and yields presentation events.
//!
//! A host makes a [`DialogRunner`], loads scripts into it with
//! `load_yarn_file`, and calls `next_event` for one event after another:
//! the start of a node, a line of dialog, a list of options, a command for
//! the host, a pause, the end. Between events it answers what the runner
//! waits for: `select` after options, `resume` after a pause for input,
//! `tick` with the time after a timed pause.
//!
//! Numbers are signed 64-bit integers, and arithmetic that leaves their
//! range stops at its nearest end. Positions in text count characters.
//!
//! What every function does is stated in its contract and proved. The
//! module `machine` defines what a script means, step by step; `laws`
//! holds what follows for every script and every state, and `round_trip`
//! that a printed node parses back to itself.

pub mod text;
pub mod lexer;
pub mod ast;
pub mod value;
pub mod host;
pub mod eval;
pub mod error;
pub mod event;
pub mod machine;
pub mod stepper;
pub mod runner;
pub mod laws;
pub mod round_trip;

pub use error::Error;
pub use host::Context;
pub use runner::DialogRunner;
