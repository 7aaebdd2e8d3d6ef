//! A small, verified record keeper for volunteer activity entries.
//!
//! The library owns the pure part of a load/mutate/save cycle: a JSON
//! codec for the entry collection and the four collection operations
//! (list, add, delete, update). Reading and writing the backing file is
//! left to the surrounding application.

pub mod encode;
pub mod entry;
pub mod escape;
pub mod hex;
pub mod laws;
pub mod number;
pub mod parse;
pub mod roundtrip;
pub mod store;
pub mod strutil;
