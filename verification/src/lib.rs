//! Signals and traps of a shell.
//!
//! The crate knows which signals a shell can trap, how they are named and numbered, which
//! handlers are registered for them and which of them the shell was created with as ignored. It
//! decides what is sent to other processes and what the state changes of children mean. The
//! system calls themselves are left to the program that uses it.
//!
//! The system is Linux, with the signal numbers that most architectures share; [`os`] says which.

pub mod error;
pub mod handlers;
pub mod listing;
pub mod os;
pub mod signal;
pub mod text;
pub mod traps;
pub mod wait;
