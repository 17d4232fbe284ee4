//! Ordered message queue

use crate::error::{Error, ErrorKind};
use crate::list::{List, MAX_LIST_SIZE};
use crate::message::object::connection;
use crate::message::object::Id;
use crate::message::Timestamp;
use crate::pd::Message;
use vstd::prelude::*;

verus! {

/// Message entries in the queue.
#[derive(Debug)]
pub struct MessageEntry<'pd> {
    /// Message to be delivered to the given connection index.
    pub first: Message<'pd>,
    /// Index into the connection array.
    pub second: connection::Index,
}

/// Object and `MessageEntry` in the message queue.
#[derive(Debug)]
pub struct ObjectMessageEntry<'pd> {
    /// Identifier for the target object.
    pub first: Id,
    /// `MessageEntry` to be delivered to this object.
    pub second: MessageEntry<'pd>,
}

impl<'pd> PartialEq for MessageEntry<'pd> {
    fn eq(&self, other: &MessageEntry<'pd>) -> (r: bool)
    {
        self.first.is_equal_to(&other.first) && self.second == other.second
    }
}

impl<'pd> vstd::std_specs::cmp::PartialEqSpecImpl for MessageEntry<'pd> {
    open spec fn obeys_eq_spec() -> bool {
        true
    }

    open spec fn eq_spec(&self, other: &MessageEntry<'pd>) -> bool {
        self.first.equals(&other.first) && self.second == other.second
    }
}

impl<'pd> PartialEq for ObjectMessageEntry<'pd> {
    fn eq(&self, other: &ObjectMessageEntry<'pd>) -> (r: bool)
    {
        self.first == other.first && self.second.first.is_equal_to(&other.second.first)
            && self.second.second == other.second.second
    }
}

impl<'pd> vstd::std_specs::cmp::PartialEqSpecImpl for ObjectMessageEntry<'pd> {
    open spec fn obeys_eq_spec() -> bool {
        true
    }

    open spec fn eq_spec(&self, other: &ObjectMessageEntry<'pd>) -> bool {
        self.first == other.first && self.second.first.equals(&other.second.first)
            && self.second.second == other.second.second
    }
}

impl<'pd> ObjectMessageEntry<'pd> {
    /// Create a new ObjectMessageEntry
    pub fn new(message_obj_id: Id, outlet_index: connection::Index, message: Message<'pd>) -> (e:
        ObjectMessageEntry<'pd>)
        ensures
            e == (ObjectMessageEntry {
                first: message_obj_id,
                second: MessageEntry { first: message, second: outlet_index },
            }),
    {
        ObjectMessageEntry {
            first: message_obj_id,
            second: MessageEntry { first: message, second: outlet_index },
        }
    }

    /// The time at which the message of this entry is due
    pub open spec fn stamp(&self) -> Timestamp {
        self.second.first.timestamp_spec()
    }

    /// Is this the entry that a cancellation of `message`, sent by the
    /// given object from the given outlet, looks for?
    pub open spec fn matches(
        &self,
        message_obj_id: Id,
        outlet_index: connection::Index,
        message: &Message,
    ) -> bool {
        &&& self.first == message_obj_id
        &&& self.second.first.equals(message)
        &&& self.second.second == outlet_index
    }
}

/// Are the entries in the order of their timestamps: is no entry
/// strictly earlier than one that stands before it?
pub open spec fn ordered(q: Seq<ObjectMessageEntry>) -> bool {
    forall|i: int, j: int|
        0 <= i < j < q.len() ==> !(#[trigger] q[j]).stamp().precedes((#[trigger] q[i]).stamp())
}

/// Is `p` the place at which an entry due at `ts` joins the queue: before
/// the first entry that is strictly later, or at the end where none is?
pub open spec fn is_insertion_point(q: Seq<ObjectMessageEntry>, ts: Timestamp, p: int) -> bool {
    &&& 0 <= p <= q.len()
    &&& forall|j: int| 0 <= j < p ==> !ts.precedes((#[trigger] q[j]).stamp())
    &&& p < q.len() ==> ts.precedes(q[p].stamp())
}

/// Is `m` the place of the first entry that a cancellation looks for?
pub open spec fn is_first_match(
    q: Seq<ObjectMessageEntry>,
    message_obj_id: Id,
    outlet_index: connection::Index,
    message: &Message,
    m: int,
) -> bool {
    &&& 0 <= m < q.len()
    &&& q[m].matches(message_obj_id, outlet_index, message)
    &&& forall|j: int|
        0 <= j < m ==> !(#[trigger] q[j]).matches(message_obj_id, outlet_index, message)
}

/// Does no entry match what a cancellation looks for?
pub open spec fn no_match(
    q: Seq<ObjectMessageEntry>,
    message_obj_id: Id,
    outlet_index: connection::Index,
    message: &Message,
) -> bool {
    forall|j: int|
        0 <= j < q.len() ==> !(#[trigger] q[j]).matches(message_obj_id, outlet_index, message)
}

/// Ordered message queue
pub struct OrderedQueue<'pd> {
    entries: List<'pd>,
}

impl<'pd> View for OrderedQueue<'pd> {
    type V = Seq<ObjectMessageEntry<'pd>>;

    closed spec fn view(&self) -> Seq<ObjectMessageEntry<'pd>> {
        self.entries@
    }
}

impl<'pd> OrderedQueue<'pd> {
    /// The entries of a queue stand in the order of their timestamps.
    pub open spec fn wf(&self) -> bool {
        ordered(self@)
    }

    /// Create a new ordered message queue
    pub fn new() -> (q: OrderedQueue<'pd>)
        ensures
            q.wf(),
            q@ == Seq::<ObjectMessageEntry>::empty(),
    {
        OrderedQueue { entries: List::new() }
    }

    /// The place at which an entry due at `ts` joins the queue
    fn find_insertion_point(&self, ts: Timestamp) -> (p: usize)
        ensures
            is_insertion_point(self@, ts, p as int),
    {
        let n = self.entries.len();
        let mut i: usize = 0;
        while i < n
            invariant
                n == self@.len(),
                i <= n,
                forall|j: int| 0 <= j < i ==> !ts.precedes((#[trigger] self@[j]).stamp()),
            decreases n - i,
        {
            match self.entries.get(i) {
                Some(entry) => {
                    if ts.is_before(entry.second.first.get_timestamp()) {
                        return i;
                    }
                },
                None => {},
            }
            i += 1;
        }
        n
    }

    /// Inserts the message into the ordered queue based on its scheduled
    /// time: before the first entry that is due strictly later, and so
    /// behind every entry that is due at the same time.
    ///
    /// Fails with `BufferOverflow` when the queue is full.
    pub fn insert_message(
        &mut self,
        message_obj_id: Id,
        outlet_index: connection::Index,
        message: Message<'pd>,
    ) -> (r: Result<(), Error>)
        requires
            old(self).wf(),
        ensures
            final(self).wf(),
            r is Ok <==> old(self)@.len() < MAX_LIST_SIZE,
            r is Err ==> final(self)@ == old(self)@ && r->Err_0.kind_spec()
                == ErrorKind::BufferOverflow,
            r is Ok ==> exists|p: int| #[trigger]
                is_insertion_point(old(self)@, message.timestamp_spec(), p) && final(self)@
                    == old(self)@.insert(
                    p,
                    ObjectMessageEntry {
                        first: message_obj_id,
                        second: MessageEntry { first: message, second: outlet_index },
                    },
                ),
    {
        let p = self.find_insertion_point(message.get_timestamp());
        let new_entry = ObjectMessageEntry::new(message_obj_id, outlet_index, message);
        proof {
            lemma_insert_keeps_order(self@, new_entry, p as int);
        }
        let r = self.entries.insert_at(p, new_entry);
        proof {
            if r is Ok {
                assert(is_insertion_point(old(self)@, message.timestamp_spec(), p as int));
            }
        }
        r
    }

    /// The place of the first entry that a cancellation looks for
    fn find_match(
        &self,
        message_obj_id: Id,
        outlet_index: connection::Index,
        message: &Message<'pd>,
    ) -> (r: Option<usize>)
        ensures
            match r {
                Some(m) => is_first_match(self@, message_obj_id, outlet_index, message, m as int),
                None => no_match(self@, message_obj_id, outlet_index, message),
            },
    {
        let n = self.entries.len();
        let mut i: usize = 0;
        while i < n
            invariant
                n == self@.len(),
                i <= n,
                forall|j: int|
                    0 <= j < i ==> !(#[trigger] self@[j]).matches(
                        message_obj_id,
                        outlet_index,
                        message,
                    ),
            decreases n - i,
        {
            match self.entries.get(i) {
                Some(entry) => {
                    if entry.first == message_obj_id && entry.second.first.is_equal_to(message)
                        && entry.second.second == outlet_index {
                        return Some(i);
                    }
                },
                None => {},
            }
            i += 1;
        }
        None
    }

    /// Removes the given message addressed to the given `message::Object`
    /// from the queue: the first entry with that object, that outlet and
    /// an equal message leaves. Where there is none, nothing changes.
    pub fn remove_message(
        &mut self,
        message_obj_id: Id,
        outlet_index: connection::Index,
        message: &Message<'pd>,
    )
        requires
            old(self).wf(),
        ensures
            final(self).wf(),
            no_match(old(self)@, message_obj_id, outlet_index, message) ==> final(self)@ == old(self)@,
            !no_match(old(self)@, message_obj_id, outlet_index, message) ==> exists|m: int|
                #[trigger] is_first_match(old(self)@, message_obj_id, outlet_index, message, m)
                    && final(self)@ == old(self)@.remove(m),
    {
        match self.find_match(message_obj_id, outlet_index, message) {
            Some(m) => {
                let _ = self.entries.remove_at(m);
                proof {
                    assert(is_first_match(
                        old(self)@,
                        message_obj_id,
                        outlet_index,
                        message,
                        m as int,
                    ));
                    lemma_remove_keeps_order(old(self)@, m as int);
                }
            },
            None => {},
        }
    }

    /// Peek at the first message in the queue. No queued message is due
    /// strictly earlier.
    pub fn peek(&self) -> (r: Option<&ObjectMessageEntry<'pd>>)
        requires
            self.wf(),
        ensures
            r is Some <==> self@.len() > 0,
            r is Some ==> *r->Some_0 == self@[0],
            r is Some ==> forall|j: int|
                0 <= j < self@.len() ==> !(#[trigger] self@[j]).stamp().precedes(
                    r->Some_0.stamp(),
                ),
    {
        self.entries.peek()
    }

    /// Pop the first message off of the front of the queue. No queued
    /// message is due strictly earlier.
    pub fn pop(&mut self) -> (r: Option<ObjectMessageEntry<'pd>>)
        requires
            old(self).wf(),
        ensures
            final(self).wf(),
            r is Some <==> old(self)@.len() > 0,
            r is Some ==> r->Some_0 == old(self)@[0] && final(self)@ == old(self)@.drop_first(),
            r is None ==> final(self)@ == old(self)@,
            r is Some ==> forall|j: int|
                0 <= j < old(self)@.len() ==> !(#[trigger] old(self)@[j]).stamp().precedes(
                    r->Some_0.stamp(),
                ),
    {
        let r = self.entries.pop();
        proof {
            if old(self)@.len() > 0 {
                assert(old(self)@.drop_first() =~= old(self)@.remove(0));
                lemma_remove_keeps_order(old(self)@, 0);
            }
        }
        r
    }

    /// Is this message queue empty?
    pub fn is_empty(&self) -> (b: bool)
        ensures
            b == (self@.len() == 0),
    {
        self.entries.is_empty()
    }

    /// The number of queued messages
    pub fn len(&self) -> (n: usize)
        ensures
            n == self@.len(),
    {
        self.entries.len()
    }
}

impl<'pd> Default for OrderedQueue<'pd> {
    fn default() -> (q: OrderedQueue<'pd>)
        ensures
            q.wf(),
            q@ == Seq::<ObjectMessageEntry>::empty(),
    {
        OrderedQueue::new()
    }
}

/// A queue in order stays in order when an entry joins it at its
/// insertion point.
pub proof fn lemma_insert_keeps_order(q: Seq<ObjectMessageEntry>, e: ObjectMessageEntry, p: int)
    requires
        ordered(q),
        is_insertion_point(q, e.stamp(), p),
    ensures
        ordered(q.insert(p, e)),
{
    let q2 = q.insert(p, e);
    assert forall|i: int, j: int| 0 <= i < j < q2.len() implies !(#[trigger] q2[j]).stamp().precedes(
        (#[trigger] q2[i]).stamp(),
    ) by {
        if j == p {
            assert(q2[i] == q[i]);
        } else if i == p {
            assert(q2[j] == q[j - 1]);
            if j - 1 > p {
                assert(!q[j - 1].stamp().precedes(q[p].stamp()));
            }
            crate::ieee::lemma_double_lt_strict_order(
                q[j - 1].stamp().0,
                e.stamp().0,
                q[p].stamp().0,
            );
        } else {
            let i0 = if i < p {
                i
            } else {
                i - 1
            };
            let j0 = if j < p {
                j
            } else {
                j - 1
            };
            assert(q2[i] == q[i0]);
            assert(q2[j] == q[j0]);
        }
    }
}

/// A queue in order stays in order when an entry leaves it.
pub proof fn lemma_remove_keeps_order(q: Seq<ObjectMessageEntry>, m: int)
    requires
        ordered(q),
        0 <= m < q.len(),
    ensures
        ordered(q.remove(m)),
{
    let q2 = q.remove(m);
    assert forall|i: int, j: int| 0 <= i < j < q2.len() implies !(#[trigger] q2[j]).stamp().precedes(
        (#[trigger] q2[i]).stamp(),
    ) by {
        let i0 = if i < m {
            i
        } else {
            i + 1
        };
        let j0 = if j < m {
            j
        } else {
            j + 1
        };
        assert(q2[i] == q[i0]);
        assert(q2[j] == q[j0]);
    }
}

/// The head of a queue in order is a minimum: no queued entry is due
/// strictly earlier.
pub proof fn lemma_head_is_minimum(q: Seq<ObjectMessageEntry>)
    requires
        ordered(q),
        q.len() > 0,
    ensures
        forall|j: int| 0 <= j < q.len() ==> !(#[trigger] q[j]).stamp().precedes(q[0].stamp()),
{
    assert forall|j: int| 0 <= j < q.len() implies !(#[trigger] q[j]).stamp().precedes(
        q[0].stamp(),
    ) by {
        if j > 0 {
            assert(!q[j].stamp().precedes(q[0].stamp()));
        } else {
            crate::ieee::lemma_double_lt_strict_order(q[0].stamp().0, q[0].stamp().0, q[0].stamp().0);
        }
    }
}

/// First in, first out among equals: an entry joins a queue in order
/// behind every queued entry that is due at the same moment, so entries of
/// one moment leave in the order in which they came.
pub proof fn lemma_insert_behind_equals(q: Seq<ObjectMessageEntry>, ts: Timestamp, p: int)
    requires
        ordered(q),
        is_insertion_point(q, ts, p),
    ensures
        forall|j: int| 0 <= j < q.len() && (#[trigger] q[j]).stamp().same_moment(ts) ==> j < p,
{
    assert forall|j: int| 0 <= j < q.len() && (#[trigger] q[j]).stamp().same_moment(ts) implies j
        < p by {
        if j >= p {
            crate::ieee::lemma_double_eq_same_place(q[j].stamp().0, ts.0, q[p].stamp().0);
            if j > p {
                assert(!q[j].stamp().precedes(q[p].stamp()));
            } else {
                crate::ieee::lemma_double_lt_strict_order(ts.0, ts.0, ts.0);
            }
        }
    }
}

/// Cancellation undoes scheduling: when an entry joins a queue in order
/// and the first entry that matches it is then taken out, the queue is
/// what it was before. The message must equal itself, which it does
/// unless it holds a NaN, and an entry that was queued before and matches
/// must be followed, up to the place of the new one, by entries identical
/// to the new one: otherwise the cancellation takes that older entry out
/// and the entries behind it move up.
pub proof fn lemma_cancel_undoes_insert(
    q: Seq<ObjectMessageEntry>,
    e: ObjectMessageEntry,
    p: int,
    m: int,
)
    requires
        ordered(q),
        is_insertion_point(q, e.stamp(), p),
        e.second.first.is_reflexive(),
        is_first_match(q.insert(p, e), e.first, e.second.second, &e.second.first, m),
        forall|j: int, k: int|
            0 <= j <= k < p && (#[trigger] q[j]).matches(e.first, e.second.second, &e.second.first)
                ==> #[trigger] q[k] == e,
    ensures
        q.insert(p, e).remove(m) == q,
{
    let q2 = q.insert(p, e);
    assert(q2[p] == e);
    assert(e.matches(e.first, e.second.second, &e.second.first)) by {
        let message = e.second.first;
        assert forall|i: int| 0 <= i < message@.len() implies crate::pd::message::atom::atoms_equal(
            #[trigger] message@[i],
            message@[i],
        ) by {
            assert(crate::pd::message::atom::is_reflexive(message@[i]));
        }
    }
    assert(m <= p);
    if m < p {
        assert(q2[m] == q[m]);
        assert forall|k: int| m <= k < p implies q[k] == e by {
            assert(q[m].matches(e.first, e.second.second, &e.second.first));
        }
    }
    assert(q2.remove(m) =~= q);
}

/// A cancellation that matches no entry leaves the queue as it was; after
/// it, the queue still has no match.
pub proof fn lemma_no_match_after_remove(
    q: Seq<ObjectMessageEntry>,
    message_obj_id: Id,
    outlet_index: connection::Index,
    message: &Message,
    m: int,
)
    requires
        is_first_match(q, message_obj_id, outlet_index, message, m),
    ensures
        q.remove(m).len() == q.len() - 1,
        forall|j: int| 0 <= j < m ==> q.remove(m)[j] == q[j],
        forall|j: int| m <= j < q.len() - 1 ==> q.remove(m)[j] == q[j + 1],
{
}

} // verus!
