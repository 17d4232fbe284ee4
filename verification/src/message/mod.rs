//! Messages and the objects that exchange them

pub mod element;
pub mod object;
pub mod queue;
pub mod send;
pub mod symbol;
pub mod timestamp;

pub use object::Object;
pub use queue::OrderedQueue;
pub use send::Send;
pub use symbol::Symbol;
pub use timestamp::Timestamp;
