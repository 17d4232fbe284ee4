//! List type: a bounded sequence of queue entries in which an entry can be
//! put at, and taken from, any place.

use crate::error::{Error, ErrorKind};
use crate::message::queue::ObjectMessageEntry;
use vstd::prelude::*;

verus! {

/// Maximum length of a list
pub const MAX_LIST_SIZE: usize = 64;

/// The storage of a list: a `heapless::Vec` of fixed capacity.
#[verifier::external_body]
pub struct EntryBuf<'pd> {
    inner: heapless::Vec<ObjectMessageEntry<'pd>, heapless::consts::U64>,
}

/// The entries that a buffer holds, first to last
pub uninterp spec fn entries_held(buf: EntryBuf) -> Seq<ObjectMessageEntry>;

/// `heapless::Vec::new`: the new vector holds nothing.
#[verifier::external_body]
fn buf_new<'pd>() -> (buf: EntryBuf<'pd>)
    ensures
        entries_held(buf) == Seq::<ObjectMessageEntry>::empty(),
{
    EntryBuf { inner: heapless::Vec::new() }
}

/// `heapless::Vec::push`: below capacity the item is appended; at capacity
/// nothing changes and the item comes back.
#[verifier::external_body]
fn buf_push<'pd>(buf: &mut EntryBuf<'pd>, item: ObjectMessageEntry<'pd>) -> (r: Result<
    (),
    ObjectMessageEntry<'pd>,
>)
    ensures
        r is Ok <==> entries_held(*old(buf)).len() < MAX_LIST_SIZE,
        r is Ok ==> entries_held(*final(buf)) == entries_held(*old(buf)).push(item),
        r is Err ==> entries_held(*final(buf)) == entries_held(*old(buf)) && r->Err_0 == item,
{
    buf.inner.push(item)
}

/// `heapless::Vec::pop`: the last item leaves and is returned; an empty
/// vector stays empty and gives `None`.
#[verifier::external_body]
fn buf_pop<'pd>(buf: &mut EntryBuf<'pd>) -> (r: Option<ObjectMessageEntry<'pd>>)
    ensures
        r is Some <==> entries_held(*old(buf)).len() > 0,
        r is Some ==> r->Some_0 == entries_held(*old(buf)).last() && entries_held(*final(buf))
            == entries_held(*old(buf)).drop_last(),
        r is None ==> entries_held(*final(buf)) == entries_held(*old(buf)),
{
    buf.inner.pop()
}

/// `len` of the slice that a `heapless::Vec` derefs to: the number of items.
#[verifier::external_body]
fn buf_len(buf: &EntryBuf) -> (n: usize)
    ensures
        n == entries_held(*buf).len(),
{
    buf.inner.len()
}

/// Indexing the slice that a `heapless::Vec` derefs to: the item at `i`.
#[verifier::external_body]
fn buf_index<'a, 'pd>(buf: &'a EntryBuf<'pd>, i: usize) -> (entry: &'a ObjectMessageEntry<'pd>)
    requires
        i < entries_held(*buf).len(),
    ensures
        *entry == entries_held(*buf)[i as int],
{
    &buf.inner[i]
}

/// `swap` of the slice that a `heapless::Vec` derefs to: the items at `i`
/// and `j` change places.
#[verifier::external_body]
fn buf_swap(buf: &mut EntryBuf, i: usize, j: usize)
    requires
        i < entries_held(*old(buf)).len(),
        j < entries_held(*old(buf)).len(),
    ensures
        entries_held(*final(buf)) == entries_held(*old(buf)).update(
            i as int,
            entries_held(*old(buf))[j as int],
        ).update(j as int, entries_held(*old(buf))[i as int]),
{
    buf.inner.swap(i, j)
}

/// `List` type: a bounded sequence of queue entries
pub struct List<'pd> {
    items: EntryBuf<'pd>,
}

impl<'pd> View for List<'pd> {
    type V = Seq<ObjectMessageEntry<'pd>>;

    closed spec fn view(&self) -> Seq<ObjectMessageEntry<'pd>> {
        entries_held(self.items)
    }
}

impl<'pd> List<'pd> {
    /// Create a new `List`
    pub fn new() -> (list: List<'pd>)
        ensures
            list@ == Seq::<ObjectMessageEntry>::empty(),
    {
        List { items: buf_new() }
    }

    /// Append an element onto the end of `List`
    pub fn append(&mut self, elem: ObjectMessageEntry<'pd>) -> (r: Result<(), Error>)
        ensures
            r is Ok <==> old(self)@.len() < MAX_LIST_SIZE,
            r is Ok ==> final(self)@ == old(self)@.push(elem),
            r is Err ==> final(self)@ == old(self)@ && r->Err_0.kind_spec()
                == ErrorKind::BufferOverflow,
    {
        match buf_push(&mut self.items, elem) {
            Ok(()) => Ok(()),
            Err(_) => Err(Error::new(ErrorKind::BufferOverflow)),
        }
    }

    /// Alias for append
    pub fn push_back(&mut self, elem: ObjectMessageEntry<'pd>) -> (r: Result<(), Error>)
        ensures
            r is Ok <==> old(self)@.len() < MAX_LIST_SIZE,
            r is Ok ==> final(self)@ == old(self)@.push(elem),
            r is Err ==> final(self)@ == old(self)@ && r->Err_0.kind_spec()
                == ErrorKind::BufferOverflow,
    {
        self.append(elem)
    }

    /// The number of elements of this list
    pub fn len(&self) -> (n: usize)
        ensures
            n == self@.len(),
    {
        buf_len(&self.items)
    }

    /// Is this list empty?
    pub fn is_empty(&self) -> (b: bool)
        ensures
            b == (self@.len() == 0),
    {
        buf_len(&self.items) == 0
    }

    /// The element at the given position in the list
    pub fn get(&self, index: usize) -> (r: Option<&ObjectMessageEntry<'pd>>)
        ensures
            r is Some <==> index < self@.len(),
            r is Some ==> *r->Some_0 == self@[index as int],
    {
        if index < buf_len(&self.items) {
            Some(buf_index(&self.items, index))
        } else {
            None
        }
    }

    /// Insert an element at the given position in the list; the elements
    /// from that position on move one place back.
    ///
    /// Fails with `IndexOutOfBounds` when `index` lies beyond the end, and
    /// with `BufferOverflow` when the list is full.
    pub fn insert_at(&mut self, index: usize, elem: ObjectMessageEntry<'pd>) -> (r: Result<
        (),
        Error,
    >)
        ensures
            r is Ok <==> index <= old(self)@.len() && old(self)@.len() < MAX_LIST_SIZE,
            r is Ok ==> final(self)@ == old(self)@.insert(index as int, elem),
            r is Err ==> final(self)@ == old(self)@ && r->Err_0.kind_spec() == if index > old(self)@.len() {
                ErrorKind::IndexOutOfBounds
            } else {
                ErrorKind::BufferOverflow
            },
    {
        let n = buf_len(&self.items);
        if index > n {
            return Err(Error::new(ErrorKind::IndexOutOfBounds));
        }
        match buf_push(&mut self.items, elem) {
            Ok(()) => {},
            Err(_) => {
                return Err(Error::new(ErrorKind::BufferOverflow));
            },
        }
        // the new element stands last: move it forward, place by place
        let mut i: usize = n;
        while i > index
            invariant
                index <= i <= n,
                n == old(self)@.len(),
                self@.len() == n + 1,
                self@ == old(self)@.push(elem).remove(n as int).insert(i as int, elem),
            decreases i,
        {
            buf_swap(&mut self.items, i, i - 1);
            proof {
                let before = old(self)@.push(elem).remove(n as int).insert(i as int, elem);
                let after = old(self)@.push(elem).remove(n as int).insert(i as int - 1, elem);
                assert(before.update(i as int, before[i as int - 1]).update(
                    i as int - 1,
                    before[i as int],
                ) =~= after);
            }
            i -= 1;
        }
        proof {
            assert(old(self)@.push(elem).remove(n as int) =~= old(self)@);
        }
        Ok(())
    }

    /// Remove an element from the given position in the list; the elements
    /// behind it move one place forward.
    ///
    /// Fails with `IndexOutOfBounds` when the list has no such position.
    pub fn remove_at(&mut self, index: usize) -> (r: Result<ObjectMessageEntry<'pd>, Error>)
        ensures
            r is Ok <==> index < old(self)@.len(),
            r is Ok ==> r->Ok_0 == old(self)@[index as int] && final(self)@ == old(self)@.remove(
                index as int,
            ),
            r is Err ==> final(self)@ == old(self)@ && r->Err_0.kind_spec()
                == ErrorKind::IndexOutOfBounds,
    {
        let n = buf_len(&self.items);
        if index >= n {
            return Err(Error::new(ErrorKind::IndexOutOfBounds));
        }
        // move the element back, place by place, until it stands last
        let mut i: usize = index;
        while i + 1 < n
            invariant
                index <= i < n,
                n == old(self)@.len(),
                self@.len() == n,
                self@ == old(self)@.remove(index as int).insert(
                    i as int,
                    old(self)@[index as int],
                ),
            decreases n - i,
        {
            buf_swap(&mut self.items, i, i + 1);
            proof {
                let elem = old(self)@[index as int];
                let before = old(self)@.remove(index as int).insert(i as int, elem);
                let after = old(self)@.remove(index as int).insert(i as int + 1, elem);
                assert(before.update(i as int, before[i as int + 1]).update(
                    i as int + 1,
                    before[i as int],
                ) =~= after);
            }
            i += 1;
        }
        proof {
            assert(old(self)@.remove(index as int).insert(index as int, old(self)@[index as int])
                =~= old(self)@);
        }
        match buf_pop(&mut self.items) {
            Some(elem) => {
                proof {
                    let moved = old(self)@.remove(index as int).insert(
                        n as int - 1,
                        old(self)@[index as int],
                    );
                    assert(moved.drop_last() =~= old(self)@.remove(index as int));
                }
                Ok(elem)
            },
            None => Err(Error::new(ErrorKind::IndexOutOfBounds)),
        }
    }

    /// Peek at the value at the head of the list
    pub fn peek(&self) -> (r: Option<&ObjectMessageEntry<'pd>>)
        ensures
            r is Some <==> self@.len() > 0,
            r is Some ==> *r->Some_0 == self@[0],
    {
        self.get(0)
    }

    /// Pop the first message off of the front of the list
    pub fn pop(&mut self) -> (r: Option<ObjectMessageEntry<'pd>>)
        ensures
            r is Some <==> old(self)@.len() > 0,
            r is Some ==> r->Some_0 == old(self)@[0] && final(self)@ == old(self)@.drop_first(),
            r is None ==> final(self)@ == old(self)@,
    {
        match self.remove_at(0) {
            Ok(elem) => {
                assert(old(self)@.remove(0) =~= old(self)@.drop_first());
                Some(elem)
            },
            Err(_) => None,
        }
    }
}

} // verus!
