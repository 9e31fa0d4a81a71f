//! Sequentially numbered directories, driven by a counter that is kept in one
//! table of a relational store.
//!
//! The crate holds the rules of that tool as functions on plain values: how a
//! counter is read out of a directory name and written into one, how the
//! statements sent to the store are built, what the store does with its rows,
//! and how a run moves from one step to the next. Reading lines, touching the
//! file system and talking to the store are left to the caller.
//!
//! - [`digits`]: decimal numerals, read and written
//! - [`input`]: entered lines, trimmed, and the word that ends a session
//! - [`naming`]: the counter in a directory name, and the name that a path ends in
//! - [`structs`]: the settings, a row, and the ways to fail
//! - [`utils`]: the steps of a run that work on text, and the statements for the store
//! - [`store`]: the counter table in memory
//! - [`session`]: a run as a state machine

pub mod digits;
pub mod input;
pub mod naming;
pub mod session;
pub mod store;
pub mod structs;
pub mod utils;
