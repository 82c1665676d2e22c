//! The decisions of a small cross-platform shell.
//!
//! A parsed command line (`syntax`) runs as a machine (`execution`, begun by `shell::execute`): it
//! says what is to be done outside (start a task, launch a program, look for a file, write a text),
//! is told what came of it, and goes on, until it ends with an exit code. What a run comes to, for
//! whatever the outside answers, is stated in `semantics`; what each part does, in `behaviour`; what
//! holds of all runs, in `laws`.
pub mod behaviour;
pub mod command;
pub mod evaluate;
pub mod execution;
pub mod laws;
pub mod list;
pub mod outcome;
pub mod platform;
pub mod resolve;
pub mod semantics;
pub mod sequence;
pub mod shell;
pub mod state;
pub mod syntax;
pub mod text;
