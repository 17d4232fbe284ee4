//! Memory allocator traits/types suitable for ECS-like design patterns.

pub mod fixed_size;

pub use fixed_size::{FixedSizeAllocator, GraphAllocator};

use vstd::prelude::*;

verus! {

/// Trait implemented by index types used by this allocator: an index
/// stands for the number of a slot, and for nothing else.
pub trait Index: Sized + Copy {
    /// The number of the slot that this index names
    spec fn slot(self) -> nat;

    /// The index of the slot with the given number
    fn from_slot(n: usize) -> (id: Self)
        ensures
            id.slot() == n;

    /// The number of the slot that this index names
    fn into_slot(self) -> (n: usize)
        ensures
            n == self.slot();

    /// Two indexes of one slot are the same index.
    proof fn lemma_same_slot(a: Self, b: Self)
        requires
            a.slot() == b.slot(),
        ensures
            a == b;
}

/// Trait implemented by all types that can be used by this allocator
pub trait Allocated: Sized {
    /// Identifier type for this allocatable value
    type Id: Index;

    /// The `Id` associated with this object
    spec fn id_spec(&self) -> Self::Id;

    /// Get the `Id` associated with this object
    fn id(&self) -> (id: Self::Id)
        ensures
            id == self.id_spec();
}

/// Is the slot with number `i` the lowest free slot?
pub open spec fn is_lowest_free<T>(slots: Seq<Option<T>>, i: int) -> bool {
    &&& 0 <= i < slots.len()
    &&& slots[i] is None
    &&& forall|j: int| 0 <= j < i ==> (#[trigger] slots[j]) is Some
}

/// Is any slot free?
pub open spec fn has_free_slot<T>(slots: Seq<Option<T>>) -> bool {
    exists|i: int| 0 <= i < slots.len() && (#[trigger] slots[i]) is None
}

/// Does every value stand in the slot that its own id names?
pub open spec fn ids_match_slots<T: Allocated>(slots: Seq<Option<T>>) -> bool {
    forall|i: int|
        0 <= i < slots.len() && (#[trigger] slots[i]) is Some ==> slots[i]->Some_0.id_spec().slot()
            == i
}

/// Indexed memory allocator providing O(1) access to contained values by
/// a `T::Id` type.
pub trait Allocator<T: Allocated> {
    /// The slots of this allocator, each free or holding a value
    spec fn slots(&self) -> Seq<Option<T>>;

    /// The number of slots of this allocator
    fn capacity(&self) -> (n: usize)
        ensures
            n == self.slots().len();

    /// Allocate a slot in the buffer and call the given function to get a
    /// value: the lowest free slot is taken, the function is given the id
    /// of that slot, and what it returns is stored there.
    ///
    /// A slot must be free, and the function must return a value of the
    /// id that it is given.
    fn allocate<F: FnOnce(T::Id) -> T>(&mut self, f: F) -> (value: &mut T)
        requires
            has_free_slot(old(self).slots()),
            forall|id: T::Id| call_requires(f, (id,)),
            forall|id: T::Id, made: T| call_ensures(f, (id,), made) ==> made.id_spec() == id,
        ensures
            is_lowest_free(old(self).slots(), value.id_spec().slot() as int),
            call_ensures(f, (value.id_spec(),), *value),
            final(self).slots() == old(self).slots().update(
                value.id_spec().slot() as int,
                Some(*final(value)),
            );

    /// Get an object located at the given slot ID: `None` for a free slot
    /// and for an id that names no slot.
    fn get(&self, id: T::Id) -> (r: Option<&T>)
        ensures
            r is Some <==> id.slot() < self.slots().len() && self.slots()[id.slot() as int] is Some,
            r is Some ==> *r->Some_0 == self.slots()[id.slot() as int]->Some_0;

    /// Get a mutable reference to an object located at the given slot ID:
    /// `None` for a free slot and for an id that names no slot. What the
    /// caller does to the object is done to the slot.
    fn get_mut(&mut self, id: T::Id) -> (r: Option<&mut T>)
        ensures
            r is Some <==> id.slot() < old(self).slots().len() && old(self).slots()[id.slot() as int] is Some,
            r is Some ==> *r->Some_0 == old(self).slots()[id.slot() as int]->Some_0 && final(self).slots() == old(self).slots().update(id.slot() as int, Some(*final(r->Some_0))),
            r is None ==> final(self).slots() == old(self).slots();
}

} // verus!
