//! An in-memory store of named tables driven by one-line text commands.
//!
//! The interpreter tokenizes a command, checks its arity, and creates, fills
//! or reads the tables of a caller-owned [`table::Database`]. Work that needs
//! the file system or 32-bit float arithmetic is handed back to the caller as
//! a [`command::Step`], whose result the library then turns into a reply.
use vstd::prelude::*;

pub mod command;
pub mod laws;
pub mod table;
pub mod text;

verus! {

} // verus!
