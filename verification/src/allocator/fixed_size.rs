//! Memory allocator which operates off a fixed-sized buffer

use super::{has_free_slot, is_lowest_free, Allocated, Allocator};
use crate::message::object::{Id, Object};
use crate::pd::graph;
use crate::pd::Graph;
use vstd::prelude::*;

verus! {

/// The number of slots of the allocator
pub const SLOTS: usize = 32;

/// The storage of the allocator: a `GenericArray` of `SLOTS` slots.
#[verifier::external_body]
pub struct ObjectSlots {
    inner: generic_array::GenericArray<Option<Object>, typenum::U32>,
}

/// The slots of the array, first to last: each free or holding an object
pub uninterp spec fn slots_held(array: ObjectSlots) -> Seq<Option<Object>>;

/// `GenericArray::default`: an array of `SLOTS` slots, each the default of
/// its type, which for an `Option` is `None`.
#[verifier::external_body]
fn slots_new() -> (array: ObjectSlots)
    ensures
        slots_held(array) == Seq::new(SLOTS as nat, |i: int| None::<Object>),
{
    ObjectSlots { inner: generic_array::GenericArray::default() }
}

/// `len` of the slice that a `GenericArray` derefs to: the number of slots.
#[verifier::external_body]
fn slots_len(array: &ObjectSlots) -> (n: usize)
    ensures
        n == slots_held(*array).len(),
{
    array.inner.len()
}

/// Indexing the slice that a `GenericArray` derefs to: the slot at `i`.
#[verifier::external_body]
fn slots_index(array: &ObjectSlots, i: usize) -> (slot: &Option<Object>)
    requires
        i < slots_held(*array).len(),
    ensures
        *slot == slots_held(*array)[i as int],
{
    &array.inner[i]
}

/// Indexing the slice that a `GenericArray` derefs to, mutably: the slot
/// at `i`, which the caller may change; the other slots stay.
#[verifier::external_body]
fn slots_index_mut(array: &mut ObjectSlots, i: usize) -> (slot: &mut Option<Object>)
    requires
        i < slots_held(*old(array)).len(),
    ensures
        *slot == slots_held(*old(array))[i as int],
        slots_held(*final(array)) == slots_held(*old(array)).update(i as int, *final(slot)),
{
    &mut array.inner[i]
}

/// Allocator with a fixed-size buffer
pub struct FixedSizeAllocator {
    /// Label for identifying this allocator
    label: &'static str,
    /// Internal buffer
    buffer: ObjectSlots,
}

impl FixedSizeAllocator {
    /// Create a new allocator, every slot of which is free
    pub fn new(label: &'static str) -> (allocator: FixedSizeAllocator)
        ensures
            allocator.slots() == Seq::new(SLOTS as nat, |i: int| None::<Object>),
            allocator.label_spec() == label,
    {
        FixedSizeAllocator { label, buffer: slots_new() }
    }

    /// The label of this allocator
    pub closed spec fn label_spec(&self) -> &'static str {
        self.label
    }

    /// The label of this allocator
    pub fn label(&self) -> (label: &'static str)
        ensures
            label == self.label_spec(),
    {
        self.label
    }

    /// The number of the lowest free slot, if a slot is free
    pub fn lowest_free_slot(&self) -> (r: Option<usize>)
        ensures
            match r {
                Some(i) => is_lowest_free(self.slots(), i as int),
                None => !has_free_slot(self.slots()),
            },
    {
        let n = slots_len(&self.buffer);
        let mut i: usize = 0;
        while i < n
            invariant
                self.slots().len() == n,
                i <= n,
                forall|j: int| 0 <= j < i ==> (#[trigger] self.slots()[j]) is Some,
            decreases n - i,
        {
            if slots_index(&self.buffer, i).is_none() {
                return Some(i);
            }
            i += 1;
        }
        None
    }

    /// Is no slot free?
    pub fn is_full(&self) -> (b: bool)
        ensures
            b == !has_free_slot(self.slots()),
    {
        self.lowest_free_slot().is_none()
    }
}

impl Allocator<Object> for FixedSizeAllocator {
    closed spec fn slots(&self) -> Seq<Option<Object>> {
        slots_held(self.buffer)
    }

    fn capacity(&self) -> (n: usize) {
        slots_len(&self.buffer)
    }

    fn allocate<F: FnOnce(Id) -> Object>(&mut self, f: F) -> (value: &mut Object) {
        match self.lowest_free_slot() {
            Some(i) => {
                let made = f(Id(i));
                assert(crate::allocator::Index::slot(made.id_spec()) == i);
                let slot = slots_index_mut(&mut self.buffer, i);
                slot.insert(made)
            },
            None => {
                assert(false);
                vstd::pervasive::unreached()
            },
        }
    }

    fn get(&self, id: Id) -> (r: Option<&Object>) {
        assert(crate::allocator::Index::slot(id) == id.0);
        if id.0 < slots_len(&self.buffer) {
            slots_index(&self.buffer, id.0).as_ref()
        } else {
            None
        }
    }

    fn get_mut(&mut self, id: Id) -> (r: Option<&mut Object>) {
        assert(crate::allocator::Index::slot(id) == id.0);
        if id.0 < slots_len(&self.buffer) {
            let slot = slots_index_mut(&mut self.buffer, id.0);
            slot.as_mut()
        } else {
            None
        }
    }
}

/// An allocator in which every object stands in the slot that its id
/// names stays so when an object is allocated.
pub proof fn lemma_allocate_keeps_ids(slots: Seq<Option<Object>>, i: int, made: Object)
    requires
        crate::allocator::ids_match_slots(slots),
        is_lowest_free(slots, i),
        made.id_spec().0 == i,
    ensures
        crate::allocator::ids_match_slots(slots.update(i, Some(made))),
{
}

/// The number of slots of the allocator of graphs
pub const GRAPH_SLOTS: usize = 1;

/// The storage of the allocator of graphs: a `GenericArray` of
/// `GRAPH_SLOTS` slots.
#[verifier::external_body]
pub struct GraphSlots {
    inner: generic_array::GenericArray<Option<Graph>, typenum::U1>,
}

/// The slots of the array, first to last: each free or holding a graph
pub uninterp spec fn graph_slots_held(array: GraphSlots) -> Seq<Option<Graph>>;

/// `GenericArray::default`: an array of `GRAPH_SLOTS` slots, each the
/// default of its type, which for an `Option` is `None`.
#[verifier::external_body]
fn graph_slots_new() -> (array: GraphSlots)
    ensures
        graph_slots_held(array) == Seq::new(GRAPH_SLOTS as nat, |i: int| None::<Graph>),
{
    GraphSlots { inner: generic_array::GenericArray::default() }
}

/// `len` of the slice that a `GenericArray` derefs to: the number of slots.
#[verifier::external_body]
fn graph_slots_len(array: &GraphSlots) -> (n: usize)
    ensures
        n == graph_slots_held(*array).len(),
{
    array.inner.len()
}

/// Indexing the slice that a `GenericArray` derefs to: the slot at `i`.
#[verifier::external_body]
fn graph_slots_index(array: &GraphSlots, i: usize) -> (slot: &Option<Graph>)
    requires
        i < graph_slots_held(*array).len(),
    ensures
        *slot == graph_slots_held(*array)[i as int],
{
    &array.inner[i]
}

/// Indexing the slice that a `GenericArray` derefs to, mutably: the slot
/// at `i`, which the caller may change; the other slots stay.
#[verifier::external_body]
fn graph_slots_index_mut(array: &mut GraphSlots, i: usize) -> (slot: &mut Option<Graph>)
    requires
        i < graph_slots_held(*old(array)).len(),
    ensures
        *slot == graph_slots_held(*old(array))[i as int],
        graph_slots_held(*final(array)) == graph_slots_held(*old(array)).update(
            i as int,
            *final(slot),
        ),
{
    &mut array.inner[i]
}

/// Allocator of graphs, with a fixed-size buffer
pub struct GraphAllocator {
    /// Label for identifying this allocator
    label: &'static str,
    /// Internal buffer
    buffer: GraphSlots,
}

impl GraphAllocator {
    /// Create a new allocator, every slot of which is free
    pub fn new(label: &'static str) -> (allocator: GraphAllocator)
        ensures
            allocator.slots() == Seq::new(GRAPH_SLOTS as nat, |i: int| None::<Graph>),
            allocator.label_spec() == label,
    {
        GraphAllocator { label, buffer: graph_slots_new() }
    }

    /// The label of this allocator
    pub closed spec fn label_spec(&self) -> &'static str {
        self.label
    }

    /// The label of this allocator
    pub fn label(&self) -> (label: &'static str)
        ensures
            label == self.label_spec(),
    {
        self.label
    }

    /// The number of the lowest free slot, if a slot is free
    pub fn lowest_free_slot(&self) -> (r: Option<usize>)
        ensures
            match r {
                Some(i) => is_lowest_free(self.slots(), i as int),
                None => !has_free_slot(self.slots()),
            },
    {
        let n = graph_slots_len(&self.buffer);
        let mut i: usize = 0;
        while i < n
            invariant
                self.slots().len() == n,
                i <= n,
                forall|j: int| 0 <= j < i ==> (#[trigger] self.slots()[j]) is Some,
            decreases n - i,
        {
            if graph_slots_index(&self.buffer, i).is_none() {
                return Some(i);
            }
            i += 1;
        }
        None
    }

    /// Is no slot free?
    pub fn is_full(&self) -> (b: bool)
        ensures
            b == !has_free_slot(self.slots()),
    {
        self.lowest_free_slot().is_none()
    }
}

impl Allocator<Graph> for GraphAllocator {
    closed spec fn slots(&self) -> Seq<Option<Graph>> {
        graph_slots_held(self.buffer)
    }

    fn capacity(&self) -> (n: usize) {
        graph_slots_len(&self.buffer)
    }

    fn allocate<F: FnOnce(graph::Id) -> Graph>(&mut self, f: F) -> (value: &mut Graph) {
        match self.lowest_free_slot() {
            Some(i) => {
                let made = f(graph::Id(i));
                assert(crate::allocator::Index::slot(made.id_spec()) == i);
                let slot = graph_slots_index_mut(&mut self.buffer, i);
                slot.insert(made)
            },
            None => {
                assert(false);
                vstd::pervasive::unreached()
            },
        }
    }

    fn get(&self, id: graph::Id) -> (r: Option<&Graph>) {
        assert(crate::allocator::Index::slot(id) == id.0);
        if id.0 < graph_slots_len(&self.buffer) {
            graph_slots_index(&self.buffer, id.0).as_ref()
        } else {
            None
        }
    }

    fn get_mut(&mut self, id: graph::Id) -> (r: Option<&mut Graph>) {
        assert(crate::allocator::Index::slot(id) == id.0);
        if id.0 < graph_slots_len(&self.buffer) {
            let slot = graph_slots_index_mut(&mut self.buffer, id.0);
            slot.as_mut()
        } else {
            None
        }
    }
}

} // verus!
