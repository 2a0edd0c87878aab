//! Bulk generation of random content of an exact size.
//!
//! The crate holds the rules of the generation engine: how a requested total
//! is split between workers, how an alphabet is derived, how symbols are
//! encoded without ever splitting one across a buffer boundary, and how a
//! worker moves between filling and flushing its buffer.

pub mod alphabet;
pub mod args;
pub mod buffer;
pub mod codec;
pub mod command;
pub mod error;
pub mod items;
pub mod lines;
pub mod outside;
pub mod parse;
pub mod plan;
pub mod progress;
pub mod request;
pub mod rounds;
pub mod worker;
