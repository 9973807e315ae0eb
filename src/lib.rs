//! Block import pipeline: the decisions of an actor that admits candidate blocks
//! onto the head of a linear chain, keeps an in-memory mirror of the head's
//! storage with its caches, and orders the durable writes that follow.
pub mod bytes;
pub mod storage;
pub mod import;
pub mod persist;
