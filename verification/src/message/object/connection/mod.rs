//! Management of connections between `message::Object` types

pub mod list;
pub mod table;

pub use list::List;
pub use table::{Index, Table};

use crate::allocator::Allocator;
use crate::message::object::{Id, Object};
use vstd::prelude::*;

verus! {

/// Types of connections between objects
#[allow(non_camel_case_types)]
#[derive(Copy, Clone, Debug, PartialEq, Eq, Structural)]
pub enum Type {
    /// Describes an audio connection
    DSP,
    /// Describes a message connection
    MESSAGE,
}

/// One end of a wire: the object at the other end, and the inlet or outlet
/// of that object which the wire is attached to.
#[derive(Copy, Clone, Debug, PartialEq, Eq, Structural)]
pub struct Connection {
    /// Identifier for the target object
    pub first: Id,
    /// Index into the connection table of the target object
    pub second: Index,
}

impl Connection {
    /// Create a new `Connection`
    pub fn new(object_id: Id, index: Index) -> (c: Connection)
        ensures
            c == (Connection { first: object_id, second: index }),
    {
        Connection { first: object_id, second: index }
    }

    /// Get the object's ID
    pub fn object_id(&self) -> (id: Id)
        ensures
            id == self.first,
    {
        self.first
    }

    /// Get a reference to the connected object from the given allocator
    ///
    /// The object must be there.
    pub fn object<'a, A: Allocator<Object>>(&self, allocator: &'a A) -> (object: &'a Object)
        requires
            self.first.0 < allocator.slots().len(),
            allocator.slots()[self.first.0 as int] is Some,
        ensures
            *object == allocator.slots()[self.first.0 as int]->Some_0,
    {
        self.object_id().get(allocator)
    }

    /// Get a mutable reference to the connected object from the given allocator
    ///
    /// The object must be there.
    pub fn object_mut<'a, A: Allocator<Object>>(&self, allocator: &'a mut A) -> (object:
        &'a mut Object)
        requires
            self.first.0 < old(allocator).slots().len(),
            old(allocator).slots()[self.first.0 as int] is Some,
        ensures
            *object == old(allocator).slots()[self.first.0 as int]->Some_0,
            final(allocator).slots() == old(allocator).slots().update(
                self.first.0 as int,
                Some(*final(object)),
            ),
    {
        self.object_id().get_mut(allocator)
    }

    /// Get the connection index
    pub fn index(&self) -> (i: Index)
        ensures
            i == self.second,
    {
        self.second
    }
}

} // verus!
