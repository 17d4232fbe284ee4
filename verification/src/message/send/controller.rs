//! Message send controller

use crate::allocator::Allocator;
use crate::error::{Error, ErrorKind};
use crate::message::object::connection::Index;
use crate::message::object::{delivery_views, received, Delivery, DeliveryView, Id, Object};
use crate::message::Timestamp;
use crate::pd::message::atom::str_equal;
use crate::pd::message::Atom;
use crate::pd::Message;
use vstd::prelude::*;
use vstd::string::*;

verus! {

/// Special index for referencing the system "pd" receiver
pub const SYSTEM_NAME_INDEX: usize = 0x7FFF_FFFF;

/// Size of the send stack
pub const SEND_STACK_SIZE: usize = 64;

/// The most receivers that one name can have, and the most external
/// receivers
pub const SET_SIZE: usize = 32;

/// The most bytes that a receiver name can have
pub const MAX_NAME_LENGTH: usize = 32;

/// The storage of receiver names: a `heapless::Vec` of `heapless::String`s.
#[verifier::external_body]
pub struct NameBuf {
    inner: heapless::Vec<heapless::String<heapless::consts::U32>, heapless::consts::U64>,
}

/// The names that a buffer holds, first to last
pub uninterp spec fn names_held(buf: NameBuf) -> Seq<Seq<char>>;

/// `heapless::Vec::new`: the new vector holds nothing.
#[verifier::external_body]
fn names_new() -> (buf: NameBuf)
    ensures
        names_held(buf) == Seq::<Seq<char>>::empty(),
{
    NameBuf { inner: heapless::Vec::new() }
}

/// `heapless::String::from` and `heapless::Vec::push`: a string of the
/// name is made, which needs the name to fit, and appended where the
/// vector is below its capacity; at capacity nothing changes.
#[verifier::external_body]
fn names_push(buf: &mut NameBuf, name: &str) -> (r: Result<(), ()>)
    requires
        name.spec_bytes().len() <= MAX_NAME_LENGTH,
    ensures
        r is Ok <==> names_held(*old(buf)).len() < SEND_STACK_SIZE,
        r is Ok ==> names_held(*final(buf)) == names_held(*old(buf)).push(name@),
        r is Err ==> names_held(*final(buf)) == names_held(*old(buf)),
{
    buf.inner.push(heapless::String::from(name)).map_err(|_| ())
}

/// `len` of the slice that a `heapless::Vec` derefs to: the number of items.
#[verifier::external_body]
fn names_len(buf: &NameBuf) -> (n: usize)
    ensures
        n == names_held(*buf).len(),
{
    buf.inner.len()
}

/// Indexing the slice that a `heapless::Vec` derefs to, and
/// `heapless::String::as_str`: the text of the name at `i`.
#[verifier::external_body]
fn names_get(buf: &NameBuf, i: usize) -> (name: &str)
    requires
        i < names_held(*buf).len(),
    ensures
        name@ == names_held(*buf)[i as int],
{
    buf.inner[i].as_str()
}

/// `heapless::Vec::swap_remove`: the item at `i` leaves, the last item
/// takes its place, and the vector is one shorter.
#[verifier::external_body]
fn names_swap_remove(buf: &mut NameBuf, i: usize)
    requires
        i < names_held(*old(buf)).len(),
    ensures
        names_held(*final(buf)) == names_held(*old(buf)).update(
            i as int,
            names_held(*old(buf)).last(),
        ).drop_last(),
{
    let _ = buf.inner.swap_remove(i);
}

/// The storage of the receivers of each name: a `heapless::Vec` of
/// `heapless::Vec`s of object numbers.
#[verifier::external_body]
pub struct ReceiverBuf {
    inner: heapless::Vec<heapless::Vec<usize, heapless::consts::U32>, heapless::consts::U64>,
}

/// The receivers that a buffer holds: for each name, first to last, the
/// numbers of its receivers, first to last
pub uninterp spec fn receivers_held(buf: ReceiverBuf) -> Seq<Seq<usize>>;

/// `heapless::Vec::new`: the new vector holds nothing.
#[verifier::external_body]
fn receivers_new() -> (buf: ReceiverBuf)
    ensures
        receivers_held(buf) == Seq::<Seq<usize>>::empty(),
{
    ReceiverBuf { inner: heapless::Vec::new() }
}

/// `heapless::Vec::push` of a new, empty `heapless::Vec`: it is appended
/// where the outer vector is below its capacity; at capacity nothing
/// changes.
#[verifier::external_body]
fn receivers_push_set(buf: &mut ReceiverBuf) -> (r: Result<(), ()>)
    ensures
        r is Ok <==> receivers_held(*old(buf)).len() < SEND_STACK_SIZE,
        r is Ok ==> receivers_held(*final(buf)) == receivers_held(*old(buf)).push(
            Seq::<usize>::empty(),
        ),
        r is Err ==> receivers_held(*final(buf)) == receivers_held(*old(buf)),
{
    buf.inner.push(heapless::Vec::new()).map_err(|_| ())
}

/// `len` of the slice that a `heapless::Vec` derefs to: the number of items.
#[verifier::external_body]
fn receivers_len(buf: &ReceiverBuf) -> (n: usize)
    ensures
        n == receivers_held(*buf).len(),
{
    buf.inner.len()
}

/// `len` of the inner vector at `i`: the number of receivers of that name.
#[verifier::external_body]
fn receivers_count(buf: &ReceiverBuf, i: usize) -> (n: usize)
    requires
        i < receivers_held(*buf).len(),
    ensures
        n == receivers_held(*buf)[i as int].len(),
{
    buf.inner[i].len()
}

/// Indexing the outer and the inner vector: the receiver `j` of name `i`.
#[verifier::external_body]
fn receivers_get(buf: &ReceiverBuf, i: usize, j: usize) -> (id: usize)
    requires
        i < receivers_held(*buf).len(),
        j < receivers_held(*buf)[i as int].len(),
    ensures
        id == receivers_held(*buf)[i as int][j as int],
{
    buf.inner[i][j]
}

/// `heapless::Vec::push` on the inner vector at `i`: the receiver is
/// appended where that vector is below its capacity; at capacity nothing
/// changes. The other inner vectors stay.
#[verifier::external_body]
fn receivers_insert(buf: &mut ReceiverBuf, i: usize, id: usize) -> (r: Result<(), usize>)
    requires
        i < receivers_held(*old(buf)).len(),
    ensures
        r is Ok <==> receivers_held(*old(buf))[i as int].len() < SET_SIZE,
        r is Ok ==> receivers_held(*final(buf)) == receivers_held(*old(buf)).update(
            i as int,
            receivers_held(*old(buf))[i as int].push(id),
        ),
        r is Err ==> receivers_held(*final(buf)) == receivers_held(*old(buf)),
{
    buf.inner[i].push(id)
}

/// `heapless::Vec::swap_remove` on the inner vector at `i`: the receiver
/// at `j` leaves and the last receiver takes its place. The other inner
/// vectors stay.
#[verifier::external_body]
fn receivers_swap_remove(buf: &mut ReceiverBuf, i: usize, j: usize)
    requires
        i < receivers_held(*old(buf)).len(),
        j < receivers_held(*old(buf))[i as int].len(),
    ensures
        receivers_held(*final(buf)) == receivers_held(*old(buf)).update(
            i as int,
            receivers_held(*old(buf))[i as int].update(
                j as int,
                receivers_held(*old(buf))[i as int].last(),
            ).drop_last(),
        ),
{
    let _ = buf.inner[i].swap_remove(j);
}

/// An object that receives the messages sent to a name
#[derive(Copy, Clone, Debug)]
pub struct RemoteMessageReceiver<'a> {
    /// The name that the receiver listens to
    pub name: &'a str,
    /// The object that receives
    pub object_id: Id,
}

impl<'a> RemoteMessageReceiver<'a> {
    /// A receiver of the given name
    pub fn new(name: &'a str, object_id: Id) -> (receiver: RemoteMessageReceiver<'a>)
        ensures
            receiver.name == name,
            receiver.object_id == object_id,
    {
        RemoteMessageReceiver { name, object_id }
    }

    /// The name that this receiver listens to
    pub fn get_name(&self) -> (name: &'a str)
        ensures
            name == self.name,
    {
        self.name
    }
}

/// The first place at which the names hold `name`, if any
pub open spec fn is_name_place(names: Seq<Seq<char>>, name: Seq<char>, i: int) -> bool {
    &&& 0 <= i < names.len()
    &&& names[i] == name
    &&& forall|j: int| 0 <= j < i ==> names[j] != name
}

/// The deliveries that a message leads to which each of the given objects
/// receives in turn, at its left-most inlet. Every one must be an object.
pub open spec fn received_by_all<'pd>(
    slots: Seq<Option<Object>>,
    receivers: Seq<usize>,
    timestamp: Timestamp,
    atoms: Seq<Atom<'pd>>,
) -> Seq<DeliveryView<'pd>>
    decreases receivers.len(),
{
    if receivers.len() == 0 {
        Seq::empty()
    } else {
        received_by_all(slots, receivers.drop_last(), timestamp, atoms) + received(
            slots[receivers.last() as int]->Some_0,
            Index(0),
            timestamp,
            atoms,
        )
    }
}

/// Is every one of the receivers an object?
pub open spec fn receivers_live(slots: Seq<Option<Object>>, receivers: Seq<usize>) -> bool {
    forall|j: int|
        0 <= j < receivers.len() ==> (#[trigger] receivers[j]) < slots.len()
            && slots[receivers[j] as int] is Some
}

/// Message send controller object.
///
/// Because of features such as external message injection and implicit
/// message sending from message boxes, it must be possible to `send` a
/// message to associated `receive`ers without explicitly requiring a `send`
/// object to exist in the graph. The `message::send::Controller` is intended
/// as a central dispatcher for all sent messages, delivering a message to all
/// associated `receive`ers without requiring the existence of a `send` object.
pub struct Controller {
    /// The names that have receivers, in the order in which they came
    names: NameBuf,
    /// The receivers of each name
    receivers: ReceiverBuf,
    /// Set of external receivers
    external_receiver_set: NameBuf,
}

impl Controller {
    /// The names that have receivers, in the order in which they came
    pub closed spec fn names(&self) -> Seq<Seq<char>> {
        names_held(self.names)
    }

    /// The receivers of each name, as the numbers of their objects
    pub closed spec fn receivers(&self) -> Seq<Seq<usize>> {
        receivers_held(self.receivers)
    }

    /// The names of the external receivers
    pub closed spec fn external_receivers(&self) -> Seq<Seq<char>> {
        names_held(self.external_receiver_set)
    }

    /// Every name has its receivers, and there are no more names than
    /// `SEND_STACK_SIZE`.
    pub open spec fn wf(&self) -> bool {
        self.names().len() == self.receivers().len() && self.names().len() <= SEND_STACK_SIZE
    }

    /// The index that messages to `name` are sent to: the system index for
    /// `pd`, and else the place of the name, if it has receivers.
    pub open spec fn index_of(&self, name: Seq<char>, index: Option<Index>) -> bool {
        if name == "pd"@ {
            index == Some(Index(SYSTEM_NAME_INDEX))
        } else {
            match index {
                Some(i) => is_name_place(self.names(), name, i.0 as int),
                None => !self.names().contains(name),
            }
        }
    }

    /// Create a new `message::send::Controller`
    pub fn new() -> (controller: Controller)
        ensures
            controller.wf(),
            controller.names() == Seq::<Seq<char>>::empty(),
            controller.receivers() == Seq::<Seq<usize>>::empty(),
            controller.external_receivers() == Seq::<Seq<char>>::empty(),
    {
        Controller {
            names: names_new(),
            receivers: receivers_new(),
            external_receiver_set: names_new(),
        }
    }

    /// The number of names that have receivers
    pub fn num_names(&self) -> (n: usize)
        ensures
            n == self.names().len(),
    {
        names_len(&self.names)
    }

    /// Returns `true` if a receiver by that name is already registered, or
    /// `false` otherwise. The system name `pd` is always there.
    pub fn receiver_exists(&self, receiver_name: &str) -> (b: bool)
        ensures
            b == (receiver_name@ == "pd"@ || self.names().contains(receiver_name@)),
    {
        self.get_name_index(receiver_name).is_some()
    }

    /// Returns the index to which the given receiver name is referenced.
    /// Used with `send_message`.
    pub fn get_name_index(&self, receiver_name: &str) -> (r: Option<Index>)
        ensures
            self.index_of(receiver_name@, r),
    {
        if str_equal(receiver_name, "pd") {
            // a special case for sending messages to the system
            return Some(Index(SYSTEM_NAME_INDEX));
        }
        let n = names_len(&self.names);
        let mut i: usize = 0;
        while i < n
            invariant
                n == self.names().len(),
                i <= n,
                receiver_name@ != "pd"@,
                forall|j: int| 0 <= j < i ==> self.names()[j] != receiver_name@,
            decreases n - i,
        {
            if str_equal(names_get(&self.names, i), receiver_name) {
                return Some(Index(i));
            }
            i += 1;
        }
        None
    }

    /// Sends the message on to all receivers with the given name. A name
    /// without receivers, and the system name, lead to no delivery.
    ///
    /// Every receiver of the name must be an object of the allocator.
    pub fn receive_message<'pd, A: Allocator<Object>>(
        &self,
        allocator: &A,
        name: &str,
        message: &Message<'pd>,
    ) -> (deliveries: Vec<Delivery<'pd>>)
        requires
            self.wf(),
            forall|i: int|
                0 <= i < self.receivers().len() ==> receivers_live(
                    allocator.slots(),
                    #[trigger] self.receivers()[i],
                ),
        ensures
            name@ == "pd"@ || !self.names().contains(name@) ==> deliveries@.len() == 0,
            name@ != "pd"@ && self.names().contains(name@) ==> exists|i: int| #[trigger]
                is_name_place(self.names(), name@, i) && delivery_views(deliveries@)
                    == received_by_all(
                    allocator.slots(),
                    self.receivers()[i],
                    message.timestamp_spec(),
                    message@,
                ),
    {
        match self.get_name_index(name) {
            Some(index) => {
                if index.0 == SYSTEM_NAME_INDEX && str_equal(name, "pd") {
                    Vec::new()
                } else {
                    assert(is_name_place(self.names(), name@, index.0 as int));
                    self.send_message(allocator, index, message)
                }
            },
            None => Vec::new(),
        }
    }

    /// Send a message to the receivers of the name at the given outlet
    /// index. Each receives it at its left-most inlet; the calls of
    /// `process_message` that this leads to are returned, receiver by
    /// receiver. The system index has no receivers here: what is sent to
    /// it is for the engine itself.
    ///
    /// The index must be the system index or that of a name, and every
    /// receiver of the name must be an object of the allocator.
    pub fn send_message<'pd, A: Allocator<Object>>(
        &self,
        allocator: &A,
        outlet_index: Index,
        message: &Message<'pd>,
    ) -> (deliveries: Vec<Delivery<'pd>>)
        requires
            self.wf(),
            outlet_index.0 == SYSTEM_NAME_INDEX || outlet_index.0 < self.names().len(),
            outlet_index.0 < self.names().len() ==> receivers_live(
                allocator.slots(),
                self.receivers()[outlet_index.0 as int],
            ),
        ensures
            delivery_views(deliveries@) == if outlet_index.0 < self.names().len() {
                received_by_all(
                    allocator.slots(),
                    self.receivers()[outlet_index.0 as int],
                    message.timestamp_spec(),
                    message@,
                )
            } else {
                Seq::empty()
            },
    {
        let mut deliveries: Vec<Delivery<'pd>> = Vec::new();
        if outlet_index.0 >= receivers_len(&self.receivers) {
            assert(delivery_views(deliveries@) =~= Seq::empty());
            return deliveries;
        }
        let n = receivers_count(&self.receivers, outlet_index.0);
        let ghost set = self.receivers()[outlet_index.0 as int];
        let mut j: usize = 0;
        assert(delivery_views(deliveries@) =~= Seq::empty());
        while j < n
            invariant
                outlet_index.0 < self.receivers().len(),
                set == self.receivers()[outlet_index.0 as int],
                n == set.len(),
                j <= n,
                receivers_live(allocator.slots(), set),
                delivery_views(deliveries@) == received_by_all(
                    allocator.slots(),
                    set.take(j as int),
                    message.timestamp_spec(),
                    message@,
                ),
            decreases n - j,
        {
            let id = Id(receivers_get(&self.receivers, outlet_index.0, j));
            assert(id.0 == set[j as int]);
            let target = id.get(allocator);
            let mut more = target.receive_message(Index(0), message);
            proof {
                let next = set.take(j as int + 1);
                assert(next.drop_last() =~= set.take(j as int));
                assert(next.last() == set[j as int]);
                assert(delivery_views(deliveries@ + more@) =~= delivery_views(deliveries@)
                    + delivery_views(more@));
            }
            deliveries.append(&mut more);
            j += 1;
        }
        assert(set.take(n as int) =~= set);
        deliveries
    }

    /// The place of `id` among the receivers of the name at `index`
    fn find_receiver(&self, index: usize, id: usize) -> (r: Option<usize>)
        requires
            index < self.receivers().len(),
        ensures
            match r {
                Some(j) => j < self.receivers()[index as int].len() && self.receivers()[index as int][j as int]
                    == id,
                None => !self.receivers()[index as int].contains(id),
            },
    {
        let n = receivers_count(&self.receivers, index);
        let mut j: usize = 0;
        while j < n
            invariant
                index < self.receivers().len(),
                n == self.receivers()[index as int].len(),
                j <= n,
                forall|k: int| 0 <= k < j ==> self.receivers()[index as int][k] != id,
            decreases n - j,
        {
            if receivers_get(&self.receivers, index, j) == id {
                return Some(j);
            }
            j += 1;
        }
        None
    }

    /// Add a receiver to this send controller. A name that is new joins
    /// the names as the last; the receiver joins the receivers of its name,
    /// as the last, unless it is one of them already.
    ///
    /// Fails with `BufferOverflow`, and changes nothing, where the name is
    /// longer than `MAX_NAME_LENGTH` bytes, where it is new and there are
    /// `SEND_STACK_SIZE` names already, and where it has `SET_SIZE`
    /// receivers already. The system name `pd` takes no receivers: that
    /// fails with `IndexOutOfBounds`.
    pub fn add_receiver(&mut self, receiver: RemoteMessageReceiver) -> (r: Result<(), Error>)
        requires
            old(self).wf(),
        ensures
            final(self).wf(),
            final(self).external_receivers() == old(self).external_receivers(),
            added_receiver(
                old(self).names(),
                old(self).receivers(),
                receiver.name@,
                receiver.name.spec_bytes().len(),
                receiver.object_id.0,
                final(self).names(),
                final(self).receivers(),
                r,
            ),
    {
        let name = receiver.get_name();
        let name_index = match self.get_name_index(name) {
            Some(i) => {
                if i.0 == SYSTEM_NAME_INDEX && str_equal(name, "pd") {
                    return Err(Error::new(ErrorKind::IndexOutOfBounds));
                }
                i.0
            },
            None => {
                if name.as_bytes().len() > MAX_NAME_LENGTH {
                    return Err(Error::new(ErrorKind::BufferOverflow));
                }
                let n = names_len(&self.names);
                if n >= SEND_STACK_SIZE {
                    return Err(Error::new(ErrorKind::BufferOverflow));
                }
                let _ = names_push(&mut self.names, name);
                let _ = receivers_push_set(&mut self.receivers);
                let _ = receivers_insert(&mut self.receivers, n, receiver.object_id.0);
                proof {
                    assert(self.receivers() =~= old(self).receivers().push(
                        seq![receiver.object_id.0],
                    ));
                }
                return Ok(());
            },
        };
        assert(is_name_place(self.names(), name@, name_index as int));
        match self.find_receiver(name_index, receiver.object_id.0) {
            Some(_) => Ok(()),
            None => {
                match receivers_insert(&mut self.receivers, name_index, receiver.object_id.0) {
                    Ok(()) => Ok(()),
                    Err(_) => Err(Error::new(ErrorKind::BufferOverflow)),
                }
            },
        }
    }

    /// Remove a receiver from this send controller: it leaves the
    /// receivers of its name, and the last of them takes its place. The
    /// name stays, also without receivers, so that the index of no name
    /// changes.
    pub fn remove_receiver(&mut self, receiver: RemoteMessageReceiver)
        requires
            old(self).wf(),
        ensures
            final(self).wf(),
            final(self).names() == old(self).names(),
            final(self).external_receivers() == old(self).external_receivers(),
            removed_receiver(
                old(self).names(),
                old(self).receivers(),
                receiver.name@,
                receiver.object_id.0,
                final(self).receivers(),
            ),
    {
        let name = receiver.get_name();
        if str_equal(name, "pd") {
            return ;
        }
        match self.get_name_index(name) {
            Some(index) => {
                assert(is_name_place(self.names(), name@, index.0 as int));
                match self.find_receiver(index.0, receiver.object_id.0) {
                    Some(j) => {
                        receivers_swap_remove(&mut self.receivers, index.0, j);
                    },
                    None => {},
                }
            },
            None => {},
        }
    }

    /// Is the name registered as an external receiver?
    pub fn is_external_receiver(&self, receiver_name: &str) -> (b: bool)
        ensures
            b == self.external_receivers().contains(receiver_name@),
    {
        self.find_external_receiver(receiver_name).is_some()
    }

    /// The first place of the name among the external receivers
    fn find_external_receiver(&self, receiver_name: &str) -> (r: Option<usize>)
        ensures
            match r {
                Some(i) => is_name_place(self.external_receivers(), receiver_name@, i as int),
                None => !self.external_receivers().contains(receiver_name@),
            },
    {
        let n = names_len(&self.external_receiver_set);
        let mut i: usize = 0;
        while i < n
            invariant
                n == self.external_receivers().len(),
                i <= n,
                forall|j: int| 0 <= j < i ==> self.external_receivers()[j] != receiver_name@,
            decreases n - i,
        {
            if str_equal(names_get(&self.external_receiver_set, i), receiver_name) {
                return Some(i);
            }
            i += 1;
        }
        None
    }

    /// Register an external message receiver with this send controller: the
    /// name joins the external receivers, as the last, unless it is one of
    /// them already.
    ///
    /// Fails with `BufferOverflow`, and changes nothing, where the name is
    /// new and longer than `MAX_NAME_LENGTH` bytes or there are `SET_SIZE`
    /// external receivers already.
    pub fn register_external_receiver(&mut self, receiver_name: &str) -> (r: Result<(), Error>)
        ensures
            final(self).names() == old(self).names(),
            final(self).receivers() == old(self).receivers(),
            r is Ok <==> old(self).external_receivers().contains(receiver_name@) || (
            receiver_name.spec_bytes().len() <= MAX_NAME_LENGTH && old(self).external_receivers().len() < SET_SIZE),
            r is Err ==> r->Err_0.kind_spec() == ErrorKind::BufferOverflow && final(self).external_receivers() == old(self).external_receivers(),
            r is Ok ==> final(self).external_receivers() == if old(self).external_receivers().contains(receiver_name@) {
                old(self).external_receivers()
            } else {
                old(self).external_receivers().push(receiver_name@)
            },
    {
        // sets only contain unique items
        if self.is_external_receiver(receiver_name) {
            return Ok(());
        }
        if receiver_name.as_bytes().len() > MAX_NAME_LENGTH || names_len(&self.external_receiver_set)
            >= SET_SIZE {
            return Err(Error::new(ErrorKind::BufferOverflow));
        }
        let _ = names_push(&mut self.external_receiver_set, receiver_name);
        Ok(())
    }

    /// Unregister an external message receiver from this send controller:
    /// the name leaves the external receivers, and the last of them takes
    /// its place. A name that is none of them changes nothing.
    pub fn unregister_external_receiver(&mut self, receiver_name: &str)
        ensures
            final(self).names() == old(self).names(),
            final(self).receivers() == old(self).receivers(),
            !old(self).external_receivers().contains(receiver_name@) ==> final(self).external_receivers() == old(self).external_receivers(),
            old(self).external_receivers().contains(receiver_name@) ==> exists|i: int| #[trigger]
                is_name_place(old(self).external_receivers(), receiver_name@, i) && final(self).external_receivers() == old(self).external_receivers().update(
                    i,
                    old(self).external_receivers().last(),
                ).drop_last(),
    {
        match self.find_external_receiver(receiver_name) {
            Some(i) => {
                names_swap_remove(&mut self.external_receiver_set, i);
                assert(is_name_place(old(self).external_receivers(), receiver_name@, i as int));
            },
            None => {},
        }
    }
}

impl Default for Controller {
    fn default() -> (controller: Controller)
        ensures
            controller.wf(),
            controller.names() == Seq::<Seq<char>>::empty(),
            controller.receivers() == Seq::<Seq<usize>>::empty(),
            controller.external_receivers() == Seq::<Seq<char>>::empty(),
    {
        Controller::new()
    }
}

/// What `add_receiver` makes of the names and the receivers, and what it
/// returns
pub open spec fn added_receiver(
    names: Seq<Seq<char>>,
    receivers: Seq<Seq<usize>>,
    name: Seq<char>,
    name_bytes: nat,
    id: usize,
    names_after: Seq<Seq<char>>,
    receivers_after: Seq<Seq<usize>>,
    r: Result<(), Error>,
) -> bool {
    if name == "pd"@ {
        &&& r is Err
        &&& r->Err_0.kind_spec() == ErrorKind::IndexOutOfBounds
        &&& names_after == names
        &&& receivers_after == receivers
    } else if !names.contains(name) {
        if name_bytes <= MAX_NAME_LENGTH && names.len() < SEND_STACK_SIZE {
            &&& r is Ok
            &&& names_after == names.push(name)
            &&& receivers_after == receivers.push(seq![id])
        } else {
            &&& r is Err
            &&& r->Err_0.kind_spec() == ErrorKind::BufferOverflow
            &&& names_after == names
            &&& receivers_after == receivers
        }
    } else {
        exists|i: int| #[trigger]
            is_name_place(names, name, i) && names_after == names && if receivers[i].contains(id) {
                r is Ok && receivers_after == receivers
            } else if receivers[i].len() < SET_SIZE {
                r is Ok && receivers_after == receivers.update(i, receivers[i].push(id))
            } else {
                r is Err && r->Err_0.kind_spec() == ErrorKind::BufferOverflow && receivers_after
                    == receivers
            }
    }
}

/// What `remove_receiver` makes of the receivers
pub open spec fn removed_receiver(
    names: Seq<Seq<char>>,
    receivers: Seq<Seq<usize>>,
    name: Seq<char>,
    id: usize,
    receivers_after: Seq<Seq<usize>>,
) -> bool {
    if name == "pd"@ || !names.contains(name) {
        receivers_after == receivers
    } else {
        exists|i: int| #[trigger]
            is_name_place(names, name, i) && if receivers[i].contains(id) {
                exists|j: int|
                    0 <= j < receivers[i].len() && #[trigger] receivers[i][j] == id
                        && receivers_after == receivers.update(
                        i,
                        receivers[i].update(j, receivers[i].last()).drop_last(),
                    )
            } else {
                receivers_after == receivers
            }
    }
}

} // verus!
