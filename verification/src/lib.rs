//! **PureZen**: runtime for the Pure Data (Pd) audio programming language.
//!
//! The crate holds the graph execution engine: the time-ordered message
//! queue, the connection tables that route messages between objects, the
//! process order of a graph, and the per-block dispatch cycle.
//!
//! Sample values and timestamps are carried as IEEE-754 bit patterns, so
//! that every value the engine stores is an integer; arithmetic on them is
//! left to the caller.

pub mod allocator;
pub mod error;
pub mod ieee;
pub mod list;
pub mod message;
pub mod pd;
pub mod utils;

pub use error::{Error, ErrorKind};
