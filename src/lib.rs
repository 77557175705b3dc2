//! A todo list with nested sub-todos, kept in a flat text file: the tree,
//! its line format, and the commands on it, with their proofs.

pub mod codec;
pub mod commands;
pub mod error;
pub mod roundtrip;
pub mod storage;
pub mod todo;
pub mod utils;
