//! Connection tables (i.e. tables of connection inlets or outlets)

use super::list::{without_object, List};
use super::Connection;
use crate::error::{Error, ErrorKind};
use crate::allocator::Allocator;
use crate::message::object::{all_live, delivery_views, sent, Delivery, Id, Object};
use crate::pd::Message;
use vstd::prelude::*;

verus! {

/// Number of inlets or outlets that a connection table can hold
pub const CONNECTION_TABLE_SIZE: usize = 8;

/// Indexes into a connection table
#[derive(Copy, Clone, Debug, PartialEq, Eq, Structural)]
pub struct Index(pub usize);

impl From<usize> for Index {
    fn from(n: usize) -> (i: Index)
    {
        Index(n)
    }
}

impl vstd::std_specs::convert::FromSpecImpl<usize> for Index {
    open spec fn obeys_from_spec() -> bool {
        true
    }

    open spec fn from_spec(n: usize) -> Index {
        Index(n)
    }
}

/// The storage of a connection table: a `heapless::Vec` of fixed capacity.
#[verifier::external_body]
pub struct TableBuf {
    inner: heapless::Vec<List, heapless::consts::U8>,
}

/// The connection lists that a buffer holds, first to last
pub uninterp spec fn lists_held(buf: TableBuf) -> Seq<List>;

/// `heapless::Vec::new`: the new vector holds nothing.
#[verifier::external_body]
fn buf_new() -> (buf: TableBuf)
    ensures
        lists_held(buf) == Seq::<List>::empty(),
{
    TableBuf { inner: heapless::Vec::new() }
}

/// `heapless::Vec::push`: below capacity the item is appended; at capacity
/// nothing changes and the item comes back.
#[verifier::external_body]
fn buf_push(buf: &mut TableBuf, item: List) -> (r: Result<(), List>)
    ensures
        r is Ok <==> lists_held(*old(buf)).len() < CONNECTION_TABLE_SIZE,
        r is Ok ==> lists_held(*final(buf)) == lists_held(*old(buf)).push(item),
        r is Err ==> lists_held(*final(buf)) == lists_held(*old(buf)) && r->Err_0 == item,
{
    buf.inner.push(item)
}

/// `len` of the slice that a `heapless::Vec` derefs to: the number of items.
#[verifier::external_body]
fn buf_len(buf: &TableBuf) -> (n: usize)
    ensures
        n == lists_held(*buf).len(),
{
    buf.inner.len()
}

/// Indexing the slice that a `heapless::Vec` derefs to: the item at `i`.
#[verifier::external_body]
fn buf_index(buf: &TableBuf, i: usize) -> (list: &List)
    requires
        i < lists_held(*buf).len(),
    ensures
        *list == lists_held(*buf)[i as int],
{
    &buf.inner[i]
}

/// Indexing the slice that a `heapless::Vec` derefs to, mutably: the item
/// at `i`, which the caller may change; the other items stay.
#[verifier::external_body]
fn buf_index_mut(buf: &mut TableBuf, i: usize) -> (list: &mut List)
    requires
        i < lists_held(*old(buf)).len(),
    ensures
        *list == lists_held(*old(buf))[i as int],
        lists_held(*final(buf)) == lists_held(*old(buf)).update(i as int, *final(list)),
{
    &mut buf.inner[i]
}

/// Connection tables (i.e. table of connection inlets or outlets)
pub struct Table {
    /// Connection entries in the connection table
    entries: TableBuf,
}

impl View for Table {
    type V = Seq<Seq<Connection>>;

    closed spec fn view(&self) -> Seq<Seq<Connection>> {
        lists_held(self.entries).map_values(|list: List| list@)
    }
}

impl Table {
    /// Create a new connection table
    pub fn new() -> (table: Table)
        ensures
            table@ == Seq::<Seq<Connection>>::empty(),
    {
        Table { entries: buf_new() }
    }

    /// Create a connection table of `count` inlets or outlets, none of
    /// them connected. A table holds at most `CONNECTION_TABLE_SIZE`.
    pub fn with_lets(count: usize) -> (r: Result<Table, Error>)
        ensures
            r is Ok <==> count <= CONNECTION_TABLE_SIZE,
            r is Ok ==> r->Ok_0@ == Seq::new(count as nat, |i: int| Seq::<Connection>::empty()),
            r is Err ==> r->Err_0.kind_spec() == ErrorKind::BufferOverflow,
    {
        let mut table = Table::new();
        let mut i: usize = 0;
        while i < count
            invariant
                i <= count,
                i <= CONNECTION_TABLE_SIZE,
                table@ == Seq::new(i as nat, |j: int| Seq::<Connection>::empty()),
            decreases count - i,
        {
            match table.add_let() {
                Ok(()) => {},
                Err(e) => {
                    return Err(e);
                },
            }
            i += 1;
        }
        Ok(table)
    }

    /// Add one more inlet or outlet, not connected, after those there are.
    pub fn add_let(&mut self) -> (r: Result<(), Error>)
        ensures
            r is Ok <==> old(self)@.len() < CONNECTION_TABLE_SIZE,
            r is Ok ==> final(self)@ == old(self)@.push(Seq::<Connection>::empty()),
            r is Err ==> final(self)@ == old(self)@ && r->Err_0.kind_spec()
                == ErrorKind::BufferOverflow,
    {
        let list = List::new();
        match buf_push(&mut self.entries, list) {
            Ok(()) => {
                assert(final(self)@ == old(self)@.push(Seq::<Connection>::empty()));
                Ok(())
            },
            Err(_) => Err(Error::new(ErrorKind::BufferOverflow)),
        }
    }

    /// Get the number of inlets/outlets in the table
    pub fn len(&self) -> (n: usize)
        ensures
            n == self@.len(),
    {
        buf_len(&self.entries)
    }

    /// Is the table empty?
    pub fn is_empty(&self) -> (b: bool)
        ensures
            b == (self@.len() == 0),
    {
        buf_len(&self.entries) == 0
    }

    /// The connection list of the inlet or outlet at `index`
    pub fn get(&self, index: Index) -> (list: &List)
        requires
            index.0 < self@.len(),
        ensures
            list@ == self@[index.0 as int],
    {
        buf_index(&self.entries, index.0)
    }

    /// The connection list of the inlet or outlet at `index`, to be changed
    /// in place; the other lists stay as they are.
    pub fn get_mut(&mut self, index: Index) -> (list: &mut List)
        requires
            index.0 < old(self)@.len(),
        ensures
            list@ == old(self)@[index.0 as int],
            final(self)@ == old(self)@.update(index.0 as int, final(list)@),
    {
        let list = buf_index_mut(&mut self.entries, index.0);
        proof {
            let before = lists_held(old(self).entries);
            let after = before.update(index.0 as int, *final(list));
            assert(after.map_values(|l: List| l@) == before.map_values(|l: List| l@).update(
                index.0 as int,
                final(list)@,
            ));
        }
        list
    }

    /// Sends the given message to all connected objects at the given outlet index.
    ///
    /// The table must have the outlet, and every connection of the outlet
    /// must lead to an object of the allocator.
    pub fn send_message<'pd, A: Allocator<Object>>(
        &self,
        allocator: &A,
        outlet_index: Index,
        message: &Message<'pd>,
    ) -> (deliveries: Vec<Delivery<'pd>>)
        requires
            outlet_index.0 < self@.len(),
            all_live(allocator.slots(), self@[outlet_index.0 as int]),
        ensures
            delivery_views(deliveries@) == sent(
                allocator.slots(),
                self@[outlet_index.0 as int],
                message.timestamp_spec(),
                message@,
            ),
    {
        self.get(outlet_index).send_message(allocator, message)
    }

    /// Remove every connection that leads to the given object, at every
    /// inlet or outlet; the others keep their order.
    pub fn remove_object(&mut self, id: Id)
        ensures
            final(self)@ == old(self)@.map_values(|list: Seq<Connection>| without_object(list, id)),
    {
        let n = buf_len(&self.entries);
        let mut i: usize = 0;
        while i < n
            invariant
                n == old(self)@.len(),
                self@.len() == n,
                i <= n,
                forall|k: int| 0 <= k < i ==> self@[k] == without_object(old(self)@[k], id),
                forall|k: int| i <= k < n ==> self@[k] == old(self)@[k],
            decreases n - i,
        {
            let list = self.get_mut(Index(i));
            list.remove_object(id);
            i += 1;
        }
        assert(self@ =~= old(self)@.map_values(|list: Seq<Connection>| without_object(list, id)));
    }

    /// Remove every connection, at every inlet or outlet.
    pub fn clear_connections(&mut self)
        ensures
            final(self)@ == Seq::new(old(self)@.len(), |i: int| Seq::<Connection>::empty()),
    {
        let n = buf_len(&self.entries);
        let mut i: usize = 0;
        while i < n
            invariant
                n == old(self)@.len(),
                self@.len() == n,
                i <= n,
                forall|k: int| 0 <= k < i ==> self@[k] == Seq::<Connection>::empty(),
            decreases n - i,
        {
            let list = self.get_mut(Index(i));
            list.clear();
            i += 1;
        }
        assert(self@ =~= Seq::new(old(self)@.len(), |i: int| Seq::<Connection>::empty()));
    }

    /// Is every list of the table empty?
    pub fn all_empty(&self) -> (b: bool)
        ensures
            b == (forall|i: int| 0 <= i < self@.len() ==> #[trigger] self@[i].len() == 0),
    {
        let n = buf_len(&self.entries);
        let mut i: usize = 0;
        while i < n
            invariant
                n == self@.len(),
                i <= n,
                forall|j: int| 0 <= j < i ==> #[trigger] self@[j].len() == 0,
            decreases n - i,
        {
            if !buf_index(&self.entries, i).is_empty() {
                assert(self@[i as int].len() != 0);
                return false;
            }
            i += 1;
        }
        true
    }
}

} // verus!
