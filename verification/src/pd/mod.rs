//! Pure Data (Pd)-related types

pub mod context;
pub mod graph;
pub mod message;

pub use context::Context;
pub use graph::Graph;
pub use message::Message;
