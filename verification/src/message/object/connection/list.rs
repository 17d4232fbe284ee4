//! Connection lists (i.e. inlets or outlets)

use super::Connection;
use crate::error::{Error, ErrorKind};
use crate::allocator::Allocator;
use crate::message::object::{all_live, delivery_views, sent, Delivery, Id, Object};
use crate::pd::Message;
use vstd::prelude::*;

verus! {

/// Number of connections that one inlet or outlet can hold
pub const CONNECTION_LIST_SIZE: usize = 64;

/// The storage of a connection list: a `heapless::Vec` of fixed capacity.
#[verifier::external_body]
pub struct ConnectionBuf {
    inner: heapless::Vec<Connection, heapless::consts::U64>,
}

/// The connections that a buffer holds, first to last
pub uninterp spec fn connections_held(buf: ConnectionBuf) -> Seq<Connection>;

/// `heapless::Vec::new`: the new vector holds nothing.
#[verifier::external_body]
fn buf_new() -> (buf: ConnectionBuf)
    ensures
        connections_held(buf) == Seq::<Connection>::empty(),
{
    ConnectionBuf { inner: heapless::Vec::new() }
}

/// `heapless::Vec::push`: below capacity the item is appended; at capacity
/// nothing changes and the item comes back.
#[verifier::external_body]
fn buf_push(buf: &mut ConnectionBuf, item: Connection) -> (r: Result<(), Connection>)
    ensures
        r is Ok <==> connections_held(*old(buf)).len() < CONNECTION_LIST_SIZE,
        r is Ok ==> connections_held(*final(buf)) == connections_held(*old(buf)).push(item),
        r is Err ==> connections_held(*final(buf)) == connections_held(*old(buf)) && r->Err_0
            == item,
{
    buf.inner.push(item)
}

/// `len` of the slice that a `heapless::Vec` derefs to: the number of items.
#[verifier::external_body]
fn buf_len(buf: &ConnectionBuf) -> (n: usize)
    ensures
        n == connections_held(*buf).len(),
{
    buf.inner.len()
}

/// Indexing the slice that a `heapless::Vec` derefs to: the item at `i`.
#[verifier::external_body]
fn buf_get(buf: &ConnectionBuf, i: usize) -> (c: Connection)
    requires
        i < connections_held(*buf).len(),
    ensures
        c == connections_held(*buf)[i as int],
{
    buf.inner[i]
}

/// `heapless::Vec::swap_remove`: the item at `i` is returned, the last item
/// takes its place, and the vector is one shorter.
#[verifier::external_body]
fn buf_swap_remove(buf: &mut ConnectionBuf, i: usize) -> (c: Connection)
    requires
        i < connections_held(*old(buf)).len(),
    ensures
        c == connections_held(*old(buf))[i as int],
        connections_held(*final(buf)) == swap_removed(connections_held(*old(buf)), i as int),
{
    buf.inner.swap_remove(i)
}

/// Assigning through the mutable index of the slice that a `heapless::Vec`
/// derefs to: the item at `i` is replaced, the others stay.
#[verifier::external_body]
fn buf_set(buf: &mut ConnectionBuf, i: usize, item: Connection)
    requires
        i < connections_held(*old(buf)).len(),
    ensures
        connections_held(*final(buf)) == connections_held(*old(buf)).update(i as int, item),
{
    buf.inner[i] = item;
}

/// `heapless::Vec::truncate`: the first `len` items stay, the rest is
/// dropped; a vector that is no longer than `len` stays as it is.
#[verifier::external_body]
fn buf_truncate(buf: &mut ConnectionBuf, len: usize)
    ensures
        connections_held(*final(buf)) == if len < connections_held(*old(buf)).len() {
            connections_held(*old(buf)).take(len as int)
        } else {
            connections_held(*old(buf))
        },
{
    buf.inner.truncate(len)
}

/// `Clone` of a `heapless::Vec`: the copy holds the same items.
#[verifier::external_body]
fn buf_clone(buf: &ConnectionBuf) -> (copy: ConnectionBuf)
    ensures
        connections_held(copy) == connections_held(*buf),
{
    ConnectionBuf { inner: buf.inner.clone() }
}

/// A sequence after the item at `i` was replaced by the last item and the
/// last place dropped.
pub open spec fn swap_removed<T>(s: Seq<T>, i: int) -> Seq<T>
    recommends
        0 <= i < s.len(),
{
    s.update(i, s.last()).drop_last()
}

/// The connections of the list that do not lead to the given object, in
/// their order
pub open spec fn without_object(list: Seq<Connection>, id: Id) -> Seq<Connection>
    decreases list.len(),
{
    if list.len() == 0 {
        Seq::empty()
    } else if list.last().first == id {
        without_object(list.drop_last(), id)
    } else {
        without_object(list.drop_last(), id).push(list.last())
    }
}

/// What is left without an object is no longer than the list, and every
/// connection of it is a connection of the list.
pub proof fn lemma_without_object(list: Seq<Connection>, id: Id)
    ensures
        without_object(list, id).len() <= list.len(),
        forall|k: int|
            0 <= k < without_object(list, id).len() ==> list.contains(
                #[trigger] without_object(list, id)[k],
            ) && without_object(list, id)[k].first != id,
    decreases list.len(),
{
    if list.len() > 0 {
        lemma_without_object(list.drop_last(), id);
        let rest = without_object(list.drop_last(), id);
        assert forall|k: int| 0 <= k < without_object(list, id).len() implies list.contains(
            #[trigger] without_object(list, id)[k],
        ) && without_object(list, id)[k].first != id by {
            if k < rest.len() {
                assert(without_object(list, id)[k] == rest[k]);
                assert(list.drop_last().contains(rest[k]));
                let w = choose|w: int|
                    0 <= w < list.drop_last().len() && list.drop_last()[w] == rest[k];
                assert(list[w] == rest[k]);
            } else {
                assert(list[list.len() - 1] == without_object(list, id)[k]);
            }
        }
    }
}

/// Is `i` the first place at which `s` holds `c`?
pub open spec fn is_first_position(s: Seq<Connection>, c: Connection, i: int) -> bool {
    &&& 0 <= i < s.len()
    &&& s[i] == c
    &&& forall|j: int| 0 <= j < i ==> s[j] != c
}

/// Lists of connections to other objects for a given inlet/outlet
pub struct List {
    elements: ConnectionBuf,
}

impl View for List {
    type V = Seq<Connection>;

    closed spec fn view(&self) -> Seq<Connection> {
        connections_held(self.elements)
    }
}

impl List {
    /// Create a new `connection::List`
    pub fn new() -> (list: List)
        ensures
            list@ == Seq::<Connection>::empty(),
    {
        List { elements: buf_new() }
    }

    /// Append an element onto the end of this `connection::List`
    pub fn push_back(&mut self, connection: Connection) -> (r: Result<(), Error>)
        ensures
            r is Ok <==> old(self)@.len() < CONNECTION_LIST_SIZE,
            r is Ok ==> final(self)@ == old(self)@.push(connection),
            r is Err ==> final(self)@ == old(self)@ && r->Err_0.kind_spec()
                == ErrorKind::BufferOverflow,
    {
        match buf_push(&mut self.elements, connection) {
            Ok(()) => Ok(()),
            Err(_) => Err(Error::new(ErrorKind::BufferOverflow)),
        }
    }

    /// The first place at which the list holds `connection`, if any
    pub fn position(&self, connection: Connection) -> (r: Option<usize>)
        ensures
            match r {
                Some(i) => is_first_position(self@, connection, i as int),
                None => !self@.contains(connection),
            },
    {
        let n = buf_len(&self.elements);
        let mut i: usize = 0;
        while i < n
            invariant
                n == self@.len(),
                i <= n,
                forall|j: int| 0 <= j < i ==> self@[j] != connection,
            decreases n - i,
        {
            if buf_get(&self.elements, i) == connection {
                return Some(i);
            }
            i += 1;
        }
        None
    }

    /// Remove a connection from this `connection::List`: its first
    /// occurrence leaves, and the last connection takes its place.
    ///
    /// The connection must be in the list.
    pub fn remove(&mut self, connection: Connection) -> (r: Result<(), Error>)
        requires
            old(self)@.contains(connection),
        ensures
            r is Ok,
            exists|i: int| #[trigger]
                is_first_position(old(self)@, connection, i) && final(self)@ == swap_removed(
                    old(self)@,
                    i,
                ),
    {
        match self.position(connection) {
            Some(pos) => {
                let _ = buf_swap_remove(&mut self.elements, pos);
                assert(is_first_position(old(self)@, connection, pos as int));
            },
            None => {},
        }
        Ok(())
    }

    /// Remove every connection that leads to the given object; the others
    /// keep their order.
    pub fn remove_object(&mut self, id: Id)
        ensures
            final(self)@ == without_object(old(self)@, id),
    {
        let n = buf_len(&self.elements);
        let mut kept: usize = 0;
        let mut i: usize = 0;
        while i < n
            invariant
                n == old(self)@.len(),
                self@.len() == n,
                kept <= i <= n,
                self@.take(kept as int) == without_object(old(self)@.take(i as int), id),
                forall|k: int| i <= k < n ==> self@[k] == old(self)@[k],
            decreases n - i,
        {
            let connection = buf_get(&self.elements, i);
            proof {
                let next = old(self)@.take(i as int + 1);
                assert(next.drop_last() =~= old(self)@.take(i as int));
                assert(next.last() == connection);
            }
            if connection.first.0 != id.0 {
                let ghost before = self@;
                buf_set(&mut self.elements, kept, connection);
                assert(self@.take(kept as int + 1) =~= before.take(kept as int).push(connection));
                kept += 1;
            }
            i += 1;
        }
        assert(old(self)@.take(n as int) =~= old(self)@);
        buf_truncate(&mut self.elements, kept);
        assert(self@ =~= without_object(old(self)@, id));
    }

    /// Remove every connection.
    pub fn clear(&mut self)
        ensures
            final(self)@ == Seq::<Connection>::empty(),
    {
        buf_truncate(&mut self.elements, 0);
        assert(self@ =~= Seq::<Connection>::empty());
    }

    /// The connection at place `i`
    pub fn get(&self, i: usize) -> (r: Option<Connection>)
        ensures
            r == if i < self@.len() {
                Some(self@[i as int])
            } else {
                None
            },
    {
        if i < buf_len(&self.elements) {
            Some(buf_get(&self.elements, i))
        } else {
            None
        }
    }

    /// The connections of this list, first to last
    pub fn to_vec(&self) -> (v: Vec<Connection>)
        ensures
            v@ == self@,
    {
        let n = buf_len(&self.elements);
        let mut v: Vec<Connection> = Vec::new();
        let mut i: usize = 0;
        while i < n
            invariant
                n == self@.len(),
                i <= n,
                v@ == self@.take(i as int),
            decreases n - i,
        {
            v.push(buf_get(&self.elements, i));
            i += 1;
        }
        v
    }

    /// Sends the given message to all connected objects in this list.
    ///
    /// Each connected object receives the message at the inlet that the
    /// connection names; the calls of `process_message` that this leads to
    /// are returned, connection by connection.
    ///
    /// Every connection must lead to an object of the allocator.
    pub fn send_message<'pd, A: Allocator<Object>>(
        &self,
        allocator: &A,
        message: &Message<'pd>,
    ) -> (deliveries: Vec<Delivery<'pd>>)
        requires
            all_live(allocator.slots(), self@),
        ensures
            delivery_views(deliveries@) == sent(
                allocator.slots(),
                self@,
                message.timestamp_spec(),
                message@,
            ),
    {
        let n = buf_len(&self.elements);
        let mut deliveries: Vec<Delivery<'pd>> = Vec::new();
        let mut i: usize = 0;
        while i < n
            invariant
                n == self@.len(),
                i <= n,
                all_live(allocator.slots(), self@),
                delivery_views(deliveries@) == sent(
                    allocator.slots(),
                    self@.take(i as int),
                    message.timestamp_spec(),
                    message@,
                ),
            decreases n - i,
        {
            let connection = buf_get(&self.elements, i);
            assert(connection == self@[i as int]);
            let target = connection.object_id().get(allocator);
            let mut more = target.receive_message(connection.index(), message);
            proof {
                let next = self@.take(i as int + 1);
                assert(next.drop_last() =~= self@.take(i as int));
                assert(next.last() == connection);
                assert(delivery_views(deliveries@ + more@) =~= delivery_views(deliveries@)
                    + delivery_views(more@));
            }
            deliveries.append(&mut more);
            i += 1;
        }
        assert(self@.take(n as int) =~= self@);
        deliveries
    }

    /// Get the length of this list
    pub fn len(&self) -> (n: usize)
        ensures
            n == self@.len(),
    {
        buf_len(&self.elements)
    }

    /// Is this list empty?
    pub fn is_empty(&self) -> (b: bool)
        ensures
            b == (self@.len() == 0),
    {
        buf_len(&self.elements) == 0
    }
}

impl Clone for List {
    fn clone(&self) -> (copy: List)
        ensures
            copy@ == self@,
    {
        List { elements: buf_clone(&self.elements) }
    }
}

} // verus!
