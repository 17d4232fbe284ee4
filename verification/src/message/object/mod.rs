//! Message objects: core data type for Pure Data graphs

pub mod connection;
pub mod coordinates;
pub mod types;

pub use connection::Connection;
pub use coordinates::Coordinates;
pub use types::Type;

use crate::allocator::{self, has_free_slot, is_lowest_free, Allocated, Allocator};
use crate::error::{Error, ErrorKind};
use crate::message::Timestamp;
use crate::pd::message::Atom;
use crate::pd::Message;
use connection::list::{is_first_position, swap_removed, without_object, CONNECTION_LIST_SIZE};
use connection::table::CONNECTION_TABLE_SIZE;
use connection::{Index, Table};
use vstd::prelude::*;

verus! {

/// Object identifiers
#[derive(Copy, Clone, Debug, PartialEq, Eq, Structural)]
pub struct Id(pub usize);

impl From<usize> for Id {
    fn from(n: usize) -> (id: Id)
    {
        Id(n)
    }
}

impl vstd::std_specs::convert::FromSpecImpl<usize> for Id {
    open spec fn obeys_from_spec() -> bool {
        true
    }

    open spec fn from_spec(n: usize) -> Id {
        Id(n)
    }
}

impl From<Id> for usize {
    fn from(id: Id) -> (n: usize)
    {
        id.0
    }
}

impl vstd::std_specs::convert::FromSpecImpl<Id> for usize {
    open spec fn obeys_from_spec() -> bool {
        true
    }

    open spec fn from_spec(id: Id) -> usize {
        id.0
    }
}

impl allocator::Index for Id {
    open spec fn slot(self) -> nat {
        self.0 as nat
    }

    fn from_slot(n: usize) -> (id: Id) {
        Id(n)
    }

    fn into_slot(self) -> (n: usize) {
        self.0
    }

    proof fn lemma_same_slot(a: Id, b: Id) {
    }
}

impl Id {
    /// Get a reference to the object corresponding to this `object::Id` from
    /// the given object allocator.
    ///
    /// The object must be there: an id is not to be used after its object
    /// is gone.
    pub fn get<A: Allocator<Object>>(self, allocator: &A) -> (object: &Object)
        requires
            self.0 < allocator.slots().len(),
            allocator.slots()[self.0 as int] is Some,
        ensures
            *object == allocator.slots()[self.0 as int]->Some_0,
    {
        match allocator.get(self) {
            Some(object) => object,
            None => {
                assert(false);
                vstd::pervasive::unreached()
            },
        }
    }

    /// Get a mutable reference to the object corresponding to this
    /// `object::Id` from the given object allocator.
    ///
    /// The object must be there: an id is not to be used after its object
    /// is gone.
    pub fn get_mut<A: Allocator<Object>>(self, allocator: &mut A) -> (object: &mut Object)
        requires
            self.0 < old(allocator).slots().len(),
            old(allocator).slots()[self.0 as int] is Some,
        ensures
            *object == old(allocator).slots()[self.0 as int]->Some_0,
            final(allocator).slots() == old(allocator).slots().update(
                self.0 as int,
                Some(*final(object)),
            ),
    {
        match allocator.get_mut(self) {
            Some(object) => object,
            None => {
                assert(false);
                vstd::pervasive::unreached()
            },
        }
    }
}

/// One call of `process_message` that the arrival of a message leads to:
/// the object that processes, the inlet, and the message handed to it.
pub struct Delivery<'pd> {
    /// The object that processes the message
    pub object_id: Id,
    /// The inlet at which the message is processed
    pub inlet_index: Index,
    /// The message that is processed
    pub message: Message<'pd>,
}

/// What a delivery holds, with the message as its timestamp and atoms
pub struct DeliveryView<'pd> {
    /// The object that processes the message
    pub object_id: Id,
    /// The inlet at which the message is processed
    pub inlet_index: Index,
    /// The timestamp of the message
    pub timestamp: Timestamp,
    /// The atoms of the message
    pub atoms: Seq<Atom<'pd>>,
}

impl<'pd> View for Delivery<'pd> {
    type V = DeliveryView<'pd>;

    open spec fn view(&self) -> DeliveryView<'pd> {
        DeliveryView {
            object_id: self.object_id,
            inlet_index: self.inlet_index,
            timestamp: self.message.timestamp_spec(),
            atoms: self.message@,
        }
    }
}

/// The views of a sequence of deliveries, one for one
pub open spec fn delivery_views<'pd>(deliveries: Seq<Delivery<'pd>>) -> Seq<DeliveryView<'pd>> {
    deliveries.map_values(|d: Delivery<'pd>| d@)
}

/// The deliveries that distribute the first `k` atoms of a message over
/// the inlets `k - 1` down to 0 of an object: the atom at place `i` goes
/// to inlet `i` as a message of its own, where it is a float or a symbol,
/// and nowhere otherwise. The right-most inlet comes first.
pub open spec fn fan_out<'pd>(
    object_id: Id,
    timestamp: Timestamp,
    atoms: Seq<Atom<'pd>>,
    k: int,
) -> Seq<DeliveryView<'pd>>
    decreases k,
{
    if k <= 0 {
        Seq::empty()
    } else {
        let atom = atoms[k - 1];
        let here = if atom is Float || atom is Symbol {
            seq![
                DeliveryView {
                    object_id,
                    inlet_index: Index((k - 1) as usize),
                    timestamp,
                    atoms: seq![atom],
                },
            ]
        } else {
            Seq::empty()
        };
        here + fan_out(object_id, timestamp, atoms, k - 1)
    }
}

/// The smaller of two numbers
pub open spec fn least(a: int, b: int) -> int {
    if a < b {
        a
    } else {
        b
    }
}

/// The deliveries that the arrival of a message at an inlet of an object
/// leads to. A message of more than one atom that arrives at the
/// left-most inlet of an object with more than one inlet, which
/// distributes, is dealt out atom by atom. Any other message is handed on
/// whole, at the inlet at which it arrived.
pub open spec fn received<'pd>(
    object: Object,
    inlet_index: Index,
    timestamp: Timestamp,
    atoms: Seq<Atom<'pd>>,
) -> Seq<DeliveryView<'pd>> {
    if inlet_index == Index(0) && object.incoming().len() > 1 && atoms.len() > 1
        && object.distributes() {
        fan_out(
            object.id_spec(),
            timestamp,
            atoms,
            least(atoms.len() as int, object.incoming().len() as int),
        )
    } else {
        seq![DeliveryView { object_id: object.id_spec(), inlet_index, timestamp, atoms }]
    }
}

/// The deliveries that a message leads to which is sent down each of the
/// given connections in turn. Every connection must lead to an object.
pub open spec fn sent<'pd>(
    slots: Seq<Option<Object>>,
    connections: Seq<Connection>,
    timestamp: Timestamp,
    atoms: Seq<Atom<'pd>>,
) -> Seq<DeliveryView<'pd>>
    decreases connections.len(),
{
    if connections.len() == 0 {
        Seq::empty()
    } else {
        sent(slots, connections.drop_last(), timestamp, atoms) + received(
            slots[connections.last().first.0 as int]->Some_0,
            connections.last().second,
            timestamp,
            atoms,
        )
    }
}

/// Does every one of the connections lead to an object?
pub open spec fn all_live(slots: Seq<Option<Object>>, connections: Seq<Connection>) -> bool {
    forall|i: int|
        0 <= i < connections.len() ==> (#[trigger] connections[i]).first.0 < slots.len()
            && slots[connections[i].first.0 as int] is Some
}

/// Message objects
pub struct Object {
    /// Identifier for this object
    id: Id,
    /// What kind of object this is
    object_type: Type,
    /// Coordinate position of an object on a graphical canvas
    coordinates: Coordinates,
    /// Incoming connections from other message objects
    incoming_connections: Table,
    /// Outgoing connections to other message objects
    outgoing_connections: Table,
    /// Flag indicating that this object has already been considered when ordering the process tree
    is_ordered: bool,
}

impl Allocated for Object {
    type Id = Id;

    closed spec fn id_spec(&self) -> Id {
        self.id
    }

    fn id(&self) -> (id: Id) {
        self.id
    }
}

impl Object {
    /// The kind of this object
    pub closed spec fn type_spec(&self) -> Type {
        self.object_type
    }

    /// The position of this object
    pub closed spec fn coordinates_spec(&self) -> Coordinates {
        self.coordinates
    }

    /// The incoming connections of this object, inlet by inlet
    pub closed spec fn incoming(&self) -> Seq<Seq<Connection>> {
        self.incoming_connections@
    }

    /// The outgoing connections of this object, outlet by outlet
    pub closed spec fn outgoing(&self) -> Seq<Seq<Connection>> {
        self.outgoing_connections@
    }

    /// Has this object been reached in the current search for a process
    /// order?
    pub closed spec fn ordered_spec(&self) -> bool {
        self.is_ordered
    }

    /// Does this object distribute the atoms of a message over its inlets?
    /// Every object does but those that process audio.
    pub open spec fn distributes(&self) -> bool {
        !self.type_spec().processes_audio()
    }

    /// Is this object a leaf of the graph: has it no outgoing connection,
    /// or does its type end the search for a process order?
    pub open spec fn is_leaf(&self) -> bool {
        self.type_spec().ends_order() || forall|i: int|
            0 <= i < self.outgoing().len() ==> #[trigger] self.outgoing()[i].len() == 0
    }

    /// Is this object the same as `other` but for its connections?
    pub open spec fn same_but_connections(&self, other: &Object) -> bool {
        &&& self.id_spec() == other.id_spec()
        &&& self.type_spec() == other.type_spec()
        &&& self.coordinates_spec() == other.coordinates_spec()
        &&& self.ordered_spec() == other.ordered_spec()
    }

    /// Create a new message object of unknown type, without inlets or
    /// outlets, in the lowest free slot of the allocator.
    ///
    /// A slot must be free.
    pub fn new<A: Allocator<Object>>(allocator: &mut A) -> (object: &mut Object)
        requires
            has_free_slot(old(allocator).slots()),
        ensures
            is_lowest_free(old(allocator).slots(), object.id_spec().0 as int),
            object.type_spec() == Type::UNKNOWN,
            object.coordinates_spec() == (Coordinates { x: 0, y: 0 }),
            object.incoming() == Seq::<Seq<Connection>>::empty(),
            object.outgoing() == Seq::<Seq<Connection>>::empty(),
            !object.ordered_spec(),
            final(allocator).slots() == old(allocator).slots().update(
                object.id_spec().0 as int,
                Some(*final(object)),
            ),
    {
        let make = |id: Id| -> (made: Object)
            ensures
                made.id_spec() == id,
                made.type_spec() == Type::UNKNOWN,
                made.coordinates_spec() == (Coordinates { x: 0, y: 0 }),
                made.incoming() == Seq::<Seq<Connection>>::empty(),
                made.outgoing() == Seq::<Seq<Connection>>::empty(),
                !made.ordered_spec(),
            {
                Object {
                    id,
                    object_type: Type::UNKNOWN,
                    coordinates: Coordinates::default(),
                    incoming_connections: Table::new(),
                    outgoing_connections: Table::new(),
                    is_ordered: false,
                }
            };
        allocator.allocate(make)
    }

    /// Create a new message object of the given type, with the given
    /// numbers of inlets and outlets, none of them connected, in the lowest
    /// free slot of the allocator.
    ///
    /// A slot must be free. Fails with `BufferOverflow`, and leaves the
    /// allocator as it was, when a connection table cannot hold so many
    /// inlets or outlets.
    pub fn with_lets<A: Allocator<Object>>(
        allocator: &mut A,
        object_type: Type,
        num_inlets: usize,
        num_outlets: usize,
    ) -> (r: Result<&mut Object, Error>)
        requires
            has_free_slot(old(allocator).slots()),
        ensures
            r is Ok <==> num_inlets <= CONNECTION_TABLE_SIZE && num_outlets
                <= CONNECTION_TABLE_SIZE,
            r is Err ==> r->Err_0.kind_spec() == ErrorKind::BufferOverflow && final(allocator).slots() == old(allocator).slots(),
            r is Ok ==> {
                let object = r->Ok_0;
                &&& is_lowest_free(old(allocator).slots(), object.id_spec().0 as int)
                &&& object.type_spec() == object_type
                &&& object.coordinates_spec() == (Coordinates { x: 0, y: 0 })
                &&& object.incoming() == Seq::new(
                    num_inlets as nat,
                    |i: int| Seq::<Connection>::empty(),
                )
                &&& object.outgoing() == Seq::new(
                    num_outlets as nat,
                    |i: int| Seq::<Connection>::empty(),
                )
                &&& !object.ordered_spec()
                &&& final(allocator).slots() == old(allocator).slots().update(
                    object.id_spec().0 as int,
                    Some(*final(object)),
                )
            },
    {
        let incoming = match Table::with_lets(num_inlets) {
            Ok(table) => table,
            Err(e) => {
                return Err(e);
            },
        };
        let outgoing = match Table::with_lets(num_outlets) {
            Ok(table) => table,
            Err(e) => {
                return Err(e);
            },
        };
        let ghost incoming_view = incoming@;
        let ghost outgoing_view = outgoing@;
        let make = move |id: Id| -> (made: Object)
            ensures
                made.id_spec() == id,
                made.type_spec() == object_type,
                made.coordinates_spec() == (Coordinates { x: 0, y: 0 }),
                made.incoming() == incoming_view,
                made.outgoing() == outgoing_view,
                !made.ordered_spec(),
            {
                Object {
                    id,
                    object_type,
                    coordinates: Coordinates::default(),
                    incoming_connections: incoming,
                    outgoing_connections: outgoing,
                    is_ordered: false,
                }
            };
        Ok(allocator.allocate(make))
    }

    /// Returns the connection type of the given outlet: an audio
    /// connection for an object that processes audio, a message
    /// connection for any other.
    pub fn get_connection_type(&self, _outlet_index: Index) -> (t: connection::Type)
        ensures
            t == if self.type_spec().processes_audio() {
                connection::Type::DSP
            } else {
                connection::Type::MESSAGE
            },
    {
        if self.object_type.does_process_audio() {
            connection::Type::DSP
        } else {
            connection::Type::MESSAGE
        }
    }

    /// Returns `true` if this object should distribute the elements of the
    /// incoming message across the inlets.
    ///
    /// A message is otherwise only distributed if the message arrives on the
    /// left-most inlet and has more than one inlet. This is `true` for every
    /// object but those that process audio.
    pub fn should_distribute_message_to_inlets(&self) -> (b: bool)
        ensures
            b == self.distributes(),
    {
        !self.object_type.does_process_audio()
    }

    /// The generic entrypoint of a message into an object.
    ///
    /// The message is handed to `process_message`, whole or dealt out over
    /// the inlets; the calls made are returned, in their order.
    pub fn receive_message<'pd>(&self, inlet_index: Index, message: &Message<'pd>) -> (deliveries:
        Vec<Delivery<'pd>>)
        ensures
            delivery_views(deliveries@) == received(
                *self,
                inlet_index,
                message.timestamp_spec(),
                message@,
            ),
    {
        let num_message_inlets = self.incoming_connections.len();
        let num_elements = message.get_num_elements();
        let mut deliveries: Vec<Delivery<'pd>> = Vec::new();
        if inlet_index.0 == 0 && num_message_inlets > 1 && num_elements > 1
            && self.should_distribute_message_to_inlets() {
            // if the message should be distributed across the inlets
            let max_inlet_to_distribute = if num_elements < num_message_inlets {
                num_elements
            } else {
                num_message_inlets
            };
            let ghost all = fan_out(
                self.id,
                message.timestamp_spec(),
                message@,
                max_inlet_to_distribute as int,
            );
            // send to right-most inlet first
            let mut i: usize = max_inlet_to_distribute;
            while i > 0
                invariant
                    i <= max_inlet_to_distribute <= message@.len(),
                    all == delivery_views(deliveries@) + fan_out(
                        self.id,
                        message.timestamp_spec(),
                        message@,
                        i as int,
                    ),
                decreases i,
            {
                let ghost before = delivery_views(deliveries@);
                let timestamp = message.get_timestamp();
                match message.get_element(i - 1) {
                    Some(Atom::Float(n)) => {
                        let single = Message::from_timestamp_and_float(timestamp, n);
                        self.process_message(Index(i - 1), &single);
                        deliveries.push(
                            Delivery { object_id: self.id, inlet_index: Index(i - 1), message: single },
                        );
                        assert(delivery_views(deliveries@) =~= before.push(
                            DeliveryView {
                                object_id: self.id,
                                inlet_index: Index((i - 1) as usize),
                                timestamp: message.timestamp_spec(),
                                atoms: seq![message@[i - 1]],
                            },
                        ));
                    },
                    Some(Atom::Symbol(s)) => {
                        let single = Message::from_timestamp_and_symbol(timestamp, s);
                        self.process_message(Index(i - 1), &single);
                        deliveries.push(
                            Delivery { object_id: self.id, inlet_index: Index(i - 1), message: single },
                        );
                        assert(delivery_views(deliveries@) =~= before.push(
                            DeliveryView {
                                object_id: self.id,
                                inlet_index: Index((i - 1) as usize),
                                timestamp: message.timestamp_spec(),
                                atoms: seq![message@[i - 1]],
                            },
                        ));
                    },
                    _ => {},
                }
                proof {
                    let rest = fan_out(
                        self.id,
                        message.timestamp_spec(),
                        message@,
                        i as int - 1,
                    );
                    assert(all =~= delivery_views(deliveries@) + rest);
                }
                i -= 1;
            }
            assert(all =~= delivery_views(deliveries@));
        } else {
            // otherwise just send the message through normally
            self.process_message(inlet_index, message);
            deliveries.push(
                Delivery { object_id: self.id, inlet_index, message: message.clone() },
            );
            assert(delivery_views(deliveries@) =~= seq![
                DeliveryView {
                    object_id: self.id,
                    inlet_index,
                    timestamp: message.timestamp_spec(),
                    atoms: message@,
                },
            ]);
        }
        deliveries
    }

    /// Sends the given message to all connected objects at the given outlet index.
    ///
    /// Each connected object receives the message at the inlet that the
    /// connection names; the calls of `process_message` that this leads to
    /// are returned, connection by connection.
    ///
    /// The object must have the outlet, and every connection of the outlet
    /// must lead to an object of the allocator.
    pub fn send_message<'pd, A: Allocator<Object>>(
        &self,
        allocator: &A,
        outlet_index: Index,
        message: &Message<'pd>,
    ) -> (deliveries: Vec<Delivery<'pd>>)
        requires
            outlet_index.0 < self.outgoing().len(),
            all_live(allocator.slots(), self.outgoing()[outlet_index.0 as int]),
        ensures
            delivery_views(deliveries@) == sent(
                allocator.slots(),
                self.outgoing()[outlet_index.0 as int],
                message.timestamp_spec(),
                message@,
            ),
    {
        self.outgoing_connections.send_message(allocator, outlet_index, message)
    }

    /// The message logic of an object
    pub fn process_message<'pd>(&self, _inlet_index: Index, _message: &Message<'pd>) {
        // By default there is nothing to process.
    }

    /// Establish a connection from another object to this object
    ///
    /// The object must have the inlet. Fails with `BufferOverflow` when
    /// the inlet can hold no more connections.
    pub fn add_connection_from_object_to_inlet(
        &mut self,
        message_obj_id: Id,
        outlet_index: Index,
        inlet_index: Index,
    ) -> (r: Result<(), Error>)
        requires
            inlet_index.0 < old(self).incoming().len(),
        ensures
            final(self).same_but_connections(old(self)),
            final(self).outgoing() == old(self).outgoing(),
            r is Ok <==> old(self).incoming()[inlet_index.0 as int].len() < CONNECTION_LIST_SIZE,
            r is Err ==> final(self).incoming() == old(self).incoming() && r->Err_0.kind_spec()
                == ErrorKind::BufferOverflow,
            r is Ok ==> final(self).incoming() == old(self).incoming().update(
                inlet_index.0 as int,
                old(self).incoming()[inlet_index.0 as int].push(
                    Connection { first: message_obj_id, second: outlet_index },
                ),
            ),
    {
        let list = self.incoming_connections.get_mut(inlet_index);
        let r = list.push_back(Connection::new(message_obj_id, outlet_index));
        proof {
            if r is Err {
                assert(final(self).incoming() =~= old(self).incoming());
            }
        }
        r
    }

    /// Establish a connection to another object from this object
    ///
    /// The object must have the outlet. Fails with `BufferOverflow` when
    /// the outlet can hold no more connections.
    pub fn add_connection_to_object_from_outlet(
        &mut self,
        message_obj_id: Id,
        inlet_index: Index,
        outlet_index: Index,
    ) -> (r: Result<(), Error>)
        requires
            outlet_index.0 < old(self).outgoing().len(),
        ensures
            final(self).same_but_connections(old(self)),
            final(self).incoming() == old(self).incoming(),
            r is Ok <==> old(self).outgoing()[outlet_index.0 as int].len() < CONNECTION_LIST_SIZE,
            r is Err ==> final(self).outgoing() == old(self).outgoing() && r->Err_0.kind_spec()
                == ErrorKind::BufferOverflow,
            r is Ok ==> final(self).outgoing() == old(self).outgoing().update(
                outlet_index.0 as int,
                old(self).outgoing()[outlet_index.0 as int].push(
                    Connection { first: message_obj_id, second: inlet_index },
                ),
            ),
    {
        let list = self.outgoing_connections.get_mut(outlet_index);
        let r = list.push_back(Connection::new(message_obj_id, inlet_index));
        proof {
            if r is Err {
                assert(final(self).outgoing() =~= old(self).outgoing());
            }
        }
        r
    }

    /// Remove a connection from another object to this object: its first
    /// occurrence at the inlet leaves, and the last connection of the inlet
    /// takes its place.
    ///
    /// This function does not remove the connection reference at the connecting object.
    /// It must be removed separately.
    ///
    /// The object must have the inlet, and the connection must be there.
    pub fn remove_connection_from_object_to_inlet(
        &mut self,
        message_obj_id: Id,
        outlet_index: Index,
        inlet_index: Index,
    ) -> (r: Result<(), Error>)
        requires
            inlet_index.0 < old(self).incoming().len(),
            old(self).incoming()[inlet_index.0 as int].contains(
                Connection { first: message_obj_id, second: outlet_index },
            ),
        ensures
            r is Ok,
            final(self).same_but_connections(old(self)),
            final(self).outgoing() == old(self).outgoing(),
            exists|i: int| #[trigger]
                is_first_position(
                    old(self).incoming()[inlet_index.0 as int],
                    Connection { first: message_obj_id, second: outlet_index },
                    i,
                ) && final(self).incoming() == old(self).incoming().update(
                    inlet_index.0 as int,
                    swap_removed(old(self).incoming()[inlet_index.0 as int], i),
                ),
    {
        let list = self.incoming_connections.get_mut(inlet_index);
        list.remove(Connection::new(message_obj_id, outlet_index))
    }

    /// Remove a connection to another object from this object: its first
    /// occurrence at the outlet leaves, and the last connection of the
    /// outlet takes its place.
    ///
    /// This function does not remove the connection reference at the connecting object.
    /// It must be removed separately.
    ///
    /// The object must have the outlet, and the connection must be there.
    pub fn remove_connection_to_object_from_outlet(
        &mut self,
        message_obj: Id,
        inlet_index: Index,
        outlet_index: Index,
    ) -> (r: Result<(), Error>)
        requires
            outlet_index.0 < old(self).outgoing().len(),
            old(self).outgoing()[outlet_index.0 as int].contains(
                Connection { first: message_obj, second: inlet_index },
            ),
        ensures
            r is Ok,
            final(self).same_but_connections(old(self)),
            final(self).incoming() == old(self).incoming(),
            exists|i: int| #[trigger]
                is_first_position(
                    old(self).outgoing()[outlet_index.0 as int],
                    Connection { first: message_obj, second: inlet_index },
                    i,
                ) && final(self).outgoing() == old(self).outgoing().update(
                    outlet_index.0 as int,
                    swap_removed(old(self).outgoing()[outlet_index.0 as int], i),
                ),
    {
        let list = self.outgoing_connections.get_mut(outlet_index);
        list.remove(Connection::new(message_obj, inlet_index))
    }

    /// Remove every connection to and from the given object, at every
    /// inlet and outlet; the others keep their order.
    pub fn remove_connections_of(&mut self, message_obj_id: Id)
        ensures
            final(self).same_but_connections(old(self)),
            final(self).incoming() == old(self).incoming().map_values(
                |list: Seq<Connection>| without_object(list, message_obj_id),
            ),
            final(self).outgoing() == old(self).outgoing().map_values(
                |list: Seq<Connection>| without_object(list, message_obj_id),
            ),
    {
        self.incoming_connections.remove_object(message_obj_id);
        self.outgoing_connections.remove_object(message_obj_id);
    }

    /// Remove every connection of this object, at every inlet and outlet.
    pub fn clear_connections(&mut self)
        ensures
            final(self).same_but_connections(old(self)),
            final(self).incoming() == Seq::new(
                old(self).incoming().len(),
                |i: int| Seq::<Connection>::empty(),
            ),
            final(self).outgoing() == Seq::new(
                old(self).outgoing().len(),
                |i: int| Seq::<Connection>::empty(),
            ),
    {
        self.incoming_connections.clear_connections();
        self.outgoing_connections.clear_connections();
    }

    /// Get incoming connections
    ///
    /// The object must have the inlet.
    pub fn get_incoming_connections(&self, inlet_index: Index) -> (list: &connection::List)
        requires
            inlet_index.0 < self.incoming().len(),
        ensures
            list@ == self.incoming()[inlet_index.0 as int],
    {
        self.incoming_connections.get(inlet_index)
    }

    /// Get outgoing connections
    ///
    /// The object must have the outlet.
    pub fn get_outgoing_connections(&self, outlet_index: Index) -> (list: &connection::List)
        requires
            outlet_index.0 < self.outgoing().len(),
        ensures
            list@ == self.outgoing()[outlet_index.0 as int],
    {
        self.outgoing_connections.get(outlet_index)
    }

    /// Get the number of message inlets
    pub fn get_num_inlets(&self) -> (n: usize)
        ensures
            n == self.incoming().len(),
    {
        self.incoming_connections.len()
    }

    /// Get the number of message outlets
    pub fn get_num_outlets(&self) -> (n: usize)
        ensures
            n == self.outgoing().len(),
    {
        self.outgoing_connections.len()
    }

    /// Get the type of an object of which no more is known
    pub fn get_object_type() -> (t: Type)
        ensures
            t == Type::UNKNOWN,
    {
        Type::UNKNOWN
    }

    /// Get the type of this object
    pub fn object_type(&self) -> (t: Type)
        ensures
            t == self.type_spec(),
    {
        self.object_type
    }

    /// Get the position of an object on a graphical canvas.
    pub fn get_coordinates(&self) -> (c: Coordinates)
        ensures
            c == self.coordinates_spec(),
    {
        self.coordinates
    }

    /// Set the position of an object on a graphical canvas.
    pub fn set_coordinates(&mut self, coordinates: Coordinates)
        ensures
            final(self).coordinates_spec() == coordinates,
            final(self).id_spec() == old(self).id_spec(),
            final(self).type_spec() == old(self).type_spec(),
            final(self).ordered_spec() == old(self).ordered_spec(),
            final(self).incoming() == old(self).incoming(),
            final(self).outgoing() == old(self).outgoing(),
    {
        self.coordinates = coordinates
    }

    /// Returns `true` if this object is a leaf in the Pd tree. `false` otherwise.
    ///
    /// This function is used only while computing the process order of objects. For this reason it also
    /// returns true in the cases when the object is send, send~, or throw~.
    pub fn is_leaf_node(&self) -> (b: bool)
        ensures
            b == self.is_leaf(),
    {
        if self.object_type.is_order_end() {
            true
        } else {
            let empty = self.outgoing_connections.all_empty();
            assert(empty == (forall|i: int|
                0 <= i < self.outgoing_connections@.len()
                    ==> #[trigger] self.outgoing_connections@[i].len() == 0));
            assert(self.outgoing() == self.outgoing_connections@);
            assert(empty == (forall|i: int|
                0 <= i < self.outgoing().len() ==> #[trigger] self.outgoing()[i].len() == 0));
            empty
        }
    }

    /// Has this object been reached in the current search for a process
    /// order?
    pub fn is_ordered(&self) -> (b: bool)
        ensures
            b == self.ordered_spec(),
    {
        self.is_ordered
    }

    /// Set the `is_ordered` flag to `true`: the object has been reached in
    /// the current search for a process order.
    pub fn set_ordered_flag(&mut self)
        ensures
            final(self).ordered_spec(),
            final(self).id_spec() == old(self).id_spec(),
            final(self).type_spec() == old(self).type_spec(),
            final(self).coordinates_spec() == old(self).coordinates_spec(),
            final(self).incoming() == old(self).incoming(),
            final(self).outgoing() == old(self).outgoing(),
    {
        self.is_ordered = true;
    }

    /// Reset the `is_ordered` flag to `false`. This is necessary in order to
    /// recompute the process order.
    pub fn reset_ordered_flag(&mut self)
        ensures
            !final(self).ordered_spec(),
            final(self).id_spec() == old(self).id_spec(),
            final(self).type_spec() == old(self).type_spec(),
            final(self).coordinates_spec() == old(self).coordinates_spec(),
            final(self).incoming() == old(self).incoming(),
            final(self).outgoing() == old(self).outgoing(),
    {
        self.is_ordered = false;
    }

    /// Analogue of `update_outgoing_message_connection`, but for incoming
    /// messages. The object stays as it is.
    pub fn update_incoming_message_connection(
        &self,
        _message_obj_id: Id,
        _old_outlet_index: Index,
        _inlet_index: Index,
        _new_outlet_index: Index,
    ) {
    }

    /// The destination inlet of an outgoing message connection can change if an inlet object
    /// in a graph is moved (and the inlet ordering changes). The object
    /// stays as it is.
    pub fn update_outgoing_message_connection(
        &self,
        _message_obj_id: Id,
        _old_inlet_index: Index,
        _outlet_index: Index,
        _new_inlet_index: Index,
    ) {
    }
}

} // verus!
