//! Pure Data context: main API entrypoint and store of all state

use super::graph::{
    self, all_ids_live, connected, disconnected, is_live, is_wired, lemma_without_id, unwired,
    unwired_at, without_id, local_process_order, topology, visited_of, well_wired,
    Connected, DspStep, Graph,
};
use crate::allocator::{has_free_slot, is_lowest_free, Allocated, Allocator, FixedSizeAllocator, GraphAllocator};
use crate::error::{Error, ErrorKind};
use crate::ieee::single_eq;
use crate::list::MAX_LIST_SIZE;
use crate::message::object::connection::list::CONNECTION_LIST_SIZE;
use crate::message::object::connection::Index;
use crate::message::object::{delivery_views, received, Delivery, DeliveryView, Id, Object};
use crate::message::queue::{
    is_first_match, is_insertion_point, no_match, MessageEntry, ObjectMessageEntry, OrderedQueue,
};
use crate::message::send::controller::{
    added_receiver, is_name_place, received_by_all, receivers_live, Controller, MAX_NAME_LENGTH, SYSTEM_NAME_INDEX,
};
use crate::message::Timestamp;
use crate::message::object::{Connection, Type};
use crate::message::send::controller::RemoteMessageReceiver;
use crate::pd::message::{token_atom, Atom};
use crate::utils::split_pieces;
use crate::pd::Message;
use vstd::prelude::*;
use vstd::string::*;

verus! {

/// The id under which the send controller stands in the message queue: a
/// message queued for it goes to the receivers of the name whose index the
/// entry holds.
pub const SEND_CONTROLLER_ID: usize = 0xFFFF_FFFF;

/// The most values that the context can hold by name
pub const VALUE_MAP_SIZE: usize = 32;

/// The most atoms of a message that is scheduled from a string
pub const EXTERNAL_MESSAGE_ATOMS: usize = 32;

/// The storage of the named values: a `heapless::FnvIndexMap` from names
/// to single-precision bit patterns.
#[verifier::external_body]
pub struct ValueMap {
    inner: heapless::FnvIndexMap<heapless::String<heapless::consts::U32>, u32, heapless::consts::U32>,
}

/// The values that a map holds, by name
pub uninterp spec fn values_held(map: ValueMap) -> Map<Seq<char>, u32>;

/// The number of values that a map holds
pub uninterp spec fn values_count(map: ValueMap) -> nat;

/// No values at all
pub open spec fn no_values() -> Map<Seq<char>, u32> {
    Map::empty()
}

/// The value that the values hold under the name, if any
pub open spec fn value_before(values: Map<Seq<char>, u32>, name: Seq<char>) -> Option<u32> {
    if values.contains_key(name) {
        Some(values[name])
    } else {
        None
    }
}

/// By how many the values grow when a value is put under the name
pub open spec fn count_added(values: Map<Seq<char>, u32>, name: Seq<char>) -> nat {
    if values.contains_key(name) {
        0
    } else {
        1
    }
}

/// `heapless::IndexMap::new`: the new map holds nothing.
#[verifier::external_body]
fn values_new() -> (map: ValueMap)
    ensures
        values_held(map) == no_values(),
        values_count(map) == 0,
{
    ValueMap { inner: heapless::FnvIndexMap::new() }
}

/// `heapless::String::from` and `heapless::IndexMap::insert`: a key of the
/// name is made, which needs the name to fit. A map that holds
/// `VALUE_MAP_SIZE` values takes nothing and stays as it is. Any other
/// map holds the value under the name afterwards, and the value that
/// stood there before is returned.
#[verifier::external_body]
fn values_insert(map: &mut ValueMap, name: &str, value: u32) -> (r: Result<Option<u32>, ()>)
    requires
        name.spec_bytes().len() <= MAX_NAME_LENGTH,
    ensures
        r is Err <==> values_count(*old(map)) >= VALUE_MAP_SIZE,
        r is Err ==> values_held(*final(map)) == values_held(*old(map)),
        r is Err ==> values_count(*final(map)) == values_count(*old(map)),
        r is Ok ==> values_held(*final(map)) == values_held(*old(map)).insert(name@, value),
        r is Ok ==> r->Ok_0 == value_before(values_held(*old(map)), name@),
        r is Ok ==> values_count(*final(map)) == values_count(*old(map)) + count_added(values_held(*old(map)), name@),
{
    map.inner.insert(heapless::String::from(name), value).map_err(|_| ())
}

/// `str::parse` to a `heapless::String` and `heapless::IndexMap::get`: the
/// value that the map holds under the name, if any. A name that does not
/// fit a key is the name of no value.
#[verifier::external_body]
fn values_get(map: &ValueMap, name: &str) -> (r: Option<u32>)
    ensures
        name.spec_bytes().len() <= MAX_NAME_LENGTH ==> r == value_before(values_held(*map), name@),
        name.spec_bytes().len() > MAX_NAME_LENGTH ==> r is None,
{
    match name.parse::<heapless::String<heapless::consts::U32>>() {
        Ok(key) => map.inner.get(&key).copied(),
        Err(_) => None,
    }
}

/// What the engine is told by a message to the system receiver `pd`
#[derive(Copy, Clone, Debug, PartialEq, Eq, Structural)]
pub enum SystemCommand {
    /// `obj`: an object is to be created
    Object,
    /// `dsp` and a float: audio processing is switched on or off
    Dsp(bool),
    /// Anything else: no command of the system
    Unrecognised,
}

/// What one call of `process` hands to the host
pub struct Block<'pd> {
    /// The calls of `process_message` that the due messages led to, in
    /// their order
    pub deliveries: Vec<Delivery<'pd>>,
    /// The due messages to the system receiver, in their order
    pub system_messages: Vec<Message<'pd>>,
    /// The objects that process the samples of the block, in their order
    pub dsp_steps: Vec<DspStep>,
}

/// The time at which a message due at `ts` is delivered in a block that
/// starts at `start`: a message that is late is delivered at the start.
pub open spec fn effective(ts: Timestamp, start: Timestamp) -> Timestamp {
    if ts.precedes(start) {
        start
    } else {
        ts
    }
}

/// Is `n` the number of queued messages that are due in the block that
/// ends at `next`: the messages at the head of the queue that are due
/// strictly before `next`?
pub open spec fn is_due_count(q: Seq<ObjectMessageEntry>, next: Timestamp, n: int) -> bool {
    &&& 0 <= n <= q.len()
    &&& forall|i: int| 0 <= i < n ==> (#[trigger] q[i]).stamp().precedes(next)
    &&& n < q.len() ==> !q[n].stamp().precedes(next)
}

/// Can the entry be delivered: is it for the send controller and holds
/// the system index or that of a name, or is it for an object that is
/// there?
pub open spec fn routable(
    slots: Seq<Option<Object>>,
    names: nat,
    first: Id,
    second: Index,
) -> bool {
    if first.0 == SEND_CONTROLLER_ID {
        second.0 == SYSTEM_NAME_INDEX || second.0 < names
    } else {
        first.0 < slots.len() && slots[first.0 as int] is Some
    }
}

/// The deliveries that one due entry leads to in a block that starts at
/// `start`. An entry for an object is received by the object at the inlet
/// of the entry; an entry for the send controller is received by the
/// receivers of the name of its index, and by nobody if it is for the
/// system. A late message is delivered with the start of the block as its
/// time.
pub open spec fn routed<'pd>(
    slots: Seq<Option<Object>>,
    receivers: Seq<Seq<usize>>,
    e: ObjectMessageEntry<'pd>,
    start: Timestamp,
) -> Seq<DeliveryView<'pd>> {
    if e.first.0 == SEND_CONTROLLER_ID {
        if e.second.second.0 < receivers.len() {
            received_by_all(
                slots,
                receivers[e.second.second.0 as int],
                effective(e.stamp(), start),
                e.second.first@,
            )
        } else {
            Seq::empty()
        }
    } else {
        received(
            slots[e.first.0 as int]->Some_0,
            e.second.second,
            effective(e.stamp(), start),
            e.second.first@,
        )
    }
}

/// The deliveries that the given due entries lead to, entry by entry
pub open spec fn dispatched<'pd>(
    slots: Seq<Option<Object>>,
    receivers: Seq<Seq<usize>>,
    entries: Seq<ObjectMessageEntry<'pd>>,
    start: Timestamp,
) -> Seq<DeliveryView<'pd>>
    decreases entries.len(),
{
    if entries.len() == 0 {
        Seq::empty()
    } else {
        dispatched(slots, receivers, entries.drop_last(), start) + routed(
            slots,
            receivers,
            entries.last(),
            start,
        )
    }
}

/// Is `index` the index that messages to `name` are sent to: the system
/// index for `pd`, and else the first place of the name?
pub open spec fn index_named(names: Seq<Seq<char>>, name: Seq<char>, index: Index) -> bool {
    if name == "pd"@ {
        index == Index(SYSTEM_NAME_INDEX)
    } else {
        is_name_place(names, name, index.0 as int)
    }
}

/// Do the atoms read the tokens of the string, one for one, with `parse`
/// as the reader of numbers?
pub open spec fn reads_tokens<F: Fn(&str) -> Option<u32>>(
    parse: F,
    init_string: Seq<char>,
    atoms: Seq<Atom>,
) -> bool {
    let tokens = split_pieces(init_string, ' ', ';');
    &&& atoms.len() == tokens.len()
    &&& forall|i: int| 0 <= i < tokens.len() ==> token_atom(parse, tokens[i], #[trigger] atoms[i])
}

/// Do the slots hold objects in the same places, with the same
/// connections and of the same kinds?
pub open spec fn topology_same(before: Seq<Option<Object>>, after: Seq<Option<Object>>) -> bool {
    crate::pd::graph::topology(before) == crate::pd::graph::topology(after)
}

/// Is the entry for the system receiver?
pub open spec fn for_system(e: ObjectMessageEntry) -> bool {
    e.first.0 == SEND_CONTROLLER_ID && e.second.second.0 == SYSTEM_NAME_INDEX
}

/// The messages to the system receiver among the given due entries, as
/// their delivery times and atoms
pub open spec fn system_bound<'pd>(entries: Seq<ObjectMessageEntry<'pd>>, start: Timestamp) -> Seq<
    (Timestamp, Seq<Atom<'pd>>),
>
    decreases entries.len(),
{
    if entries.len() == 0 {
        Seq::empty()
    } else if for_system(entries.last()) {
        system_bound(entries.drop_last(), start).push(
            (effective(entries.last().stamp(), start), entries.last().second.first@),
        )
    } else {
        system_bound(entries.drop_last(), start)
    }
}

/// The times and atoms of the given messages
pub open spec fn message_views<'pd>(messages: Seq<Message<'pd>>) -> Seq<
    (Timestamp, Seq<Atom<'pd>>),
> {
    messages.map_values(|m: Message<'pd>| (m.timestamp_spec(), m@))
}

/// The steps in which the graphs of the given slots process a block of
/// `block_size` samples: graph by graph, each in its process order
pub open spec fn all_steps(graphs: Seq<Option<Graph>>, block_size: usize) -> Seq<DspStep>
    decreases graphs.len(),
{
    if graphs.len() == 0 {
        Seq::empty()
    } else {
        all_steps(graphs.drop_last(), block_size) + match graphs.last() {
            Some(graph) => graph.process_order().map_values(
                |id: Id| DspStep { object_id: id, from_index: 0, to_index: block_size },
            ),
            None => Seq::empty(),
        }
    }
}

/// Are the objects of the graph, and its inlets and outlets, all there?
pub open spec fn graph_in_order(slots: Seq<Option<Object>>, graph: Graph) -> bool {
    &&& all_ids_live(slots, graph.nodes())
    &&& all_ids_live(slots, graph.inlets())
    &&& all_ids_live(slots, graph.outlets())
}

/// Pure Data context object: main API entrypoint and owner of all state
/// (objects, graphs, etc).
pub struct Context<'pd> {
    /// Number of input channels
    num_input_channels: usize,
    /// Number of output channels
    num_output_channels: usize,
    /// Size of a block to be rendered
    block_size: usize,
    /// Sample rate audio is being rendered at, as a single-precision bit
    /// pattern
    sample_rate: u32,
    /// Global DSP input buffers, sample by sample as bit patterns
    global_dsp_input_buffers: Vec<u32>,
    /// Global DSP output buffers, sample by sample as bit patterns
    global_dsp_output_buffers: Vec<u32>,
    /// Start of the current block in milliseconds
    block_start_timestamp: Timestamp,
    /// Duration of one block, in whole milliseconds
    block_duration: u64,
    /// Message queue keeping track of all scheduled messages.
    message_callback_queue: OrderedQueue<'pd>,
    /// Global send controller
    send_controller: Controller,
    /// The `pd::Context` object owns all `message::Object` values
    object_allocator: FixedSizeAllocator,
    /// The `pd::Context` object owns all `pd::Graph` values
    graph_allocator: GraphAllocator,
    /// Current global graph id
    global_graph_id: graph::Id,
    /// Global map for storing Value objects
    value_map: ValueMap,
}

impl<'pd> Context<'pd> {
    /// The queued messages, in the order in which they are due
    pub closed spec fn queue(&self) -> Seq<ObjectMessageEntry<'pd>> {
        self.message_callback_queue@
    }

    /// The slots of the objects
    pub closed spec fn slots(&self) -> Seq<Option<Object>> {
        self.object_allocator.slots()
    }

    /// The slots of the graphs
    pub closed spec fn graph_slots(&self) -> Seq<Option<Graph>> {
        self.graph_allocator.slots()
    }

    /// The names that have receivers
    pub closed spec fn names(&self) -> Seq<Seq<char>> {
        self.send_controller.names()
    }

    /// The receivers of each name
    pub closed spec fn receivers(&self) -> Seq<Seq<usize>> {
        self.send_controller.receivers()
    }

    /// The names of the external receivers
    pub closed spec fn external_receivers(&self) -> Seq<Seq<char>> {
        self.send_controller.external_receivers()
    }

    /// The start of the current block
    pub closed spec fn block_start(&self) -> Timestamp {
        self.block_start_timestamp
    }

    /// The duration of one block, in whole milliseconds
    pub closed spec fn block_duration_spec(&self) -> u64 {
        self.block_duration
    }

    /// The size of a block, in samples
    pub closed spec fn block_size_spec(&self) -> usize {
        self.block_size
    }

    /// The numbers of input and output channels
    pub closed spec fn channels(&self) -> (usize, usize) {
        (self.num_input_channels, self.num_output_channels)
    }

    /// The sample rate, as a single-precision bit pattern
    pub closed spec fn sample_rate_spec(&self) -> u32 {
        self.sample_rate
    }

    /// The samples of the input buffers
    pub closed spec fn input_samples(&self) -> Seq<u32> {
        self.global_dsp_input_buffers@
    }

    /// The samples of the output buffers
    pub closed spec fn output_samples(&self) -> Seq<u32> {
        self.global_dsp_output_buffers@
    }

    /// The values held by name
    pub closed spec fn values(&self) -> Map<Seq<char>, u32> {
        values_held(self.value_map)
    }

    /// The number of values held by name
    pub closed spec fn values_len(&self) -> nat {
        values_count(self.value_map)
    }

    /// The context is in order: the queue stands in the order of its
    /// timestamps and every entry of it can be delivered, every receiver
    /// and every end of a connection is an object, and the buffers hold
    /// one block for each channel.
    pub open spec fn wf(&self) -> bool {
        &&& crate::message::queue::ordered(self.queue())
        &&& self.names().len() == self.receivers().len()
        &&& self.names().len() <= crate::message::send::controller::SEND_STACK_SIZE
        &&& well_wired(self.slots())
        &&& forall|i: int|
            0 <= i < self.queue().len() ==> routable(
                self.slots(),
                self.names().len(),
                (#[trigger] self.queue()[i]).first,
                self.queue()[i].second.second,
            )
        &&& forall|i: int|
            0 <= i < self.receivers().len() ==> receivers_live(
                self.slots(),
                #[trigger] self.receivers()[i],
            )
        &&& forall|g: int|
            0 <= g < self.graph_slots().len() && (#[trigger] self.graph_slots()[g]) is Some
                ==> graph_in_order(self.slots(), self.graph_slots()[g]->Some_0)
        &&& self.input_samples().len() == self.block_size_spec() * self.channels().0
        &&& self.output_samples().len() == self.block_size_spec() * self.channels().1
    }

    /// Is everything but the queue of this context as it is in `other`?
    pub open spec fn same_but_queue(&self, other: &Context) -> bool {
        &&& self.slots() == other.slots()
        &&& self.graph_slots() == other.graph_slots()
        &&& self.names() == other.names()
        &&& self.receivers() == other.receivers()
        &&& self.external_receivers() == other.external_receivers()
        &&& self.values() == other.values()
        &&& self.values_len() == other.values_len()
        &&& self.block_start() == other.block_start()
        &&& self.block_duration_spec() == other.block_duration_spec()
        &&& self.block_size_spec() == other.block_size_spec()
        &&& self.channels() == other.channels()
        &&& self.sample_rate_spec() == other.sample_rate_spec()
        &&& self.input_samples() == other.input_samples()
        &&& self.output_samples() == other.output_samples()
    }

    /// Is everything but the objects and graphs of this context as it is
    /// in `other`?
    pub open spec fn same_but_objects(&self, other: &Context) -> bool {
        &&& self.queue() == other.queue()
        &&& self.names() == other.names()
        &&& self.receivers() == other.receivers()
        &&& self.external_receivers() == other.external_receivers()
        &&& self.values() == other.values()
        &&& self.values_len() == other.values_len()
        &&& self.block_start() == other.block_start()
        &&& self.block_duration_spec() == other.block_duration_spec()
        &&& self.block_size_spec() == other.block_size_spec()
        &&& self.channels() == other.channels()
        &&& self.sample_rate_spec() == other.sample_rate_spec()
        &&& self.input_samples() == other.input_samples()
        &&& self.output_samples() == other.output_samples()
    }

    /// Create a new `pd::Context`. This is the first thing you'll need to do in
    /// order to use this crate.
    ///
    /// `sample_rate` is a single-precision bit pattern, `block_duration`
    /// the duration of one block in whole milliseconds. The buffers of a
    /// block must fit the memory: four bytes for each sample of each
    /// channel.
    pub fn new(
        num_input_channels: usize,
        num_output_channels: usize,
        block_size: usize,
        sample_rate: u32,
        block_duration: u64,
    ) -> (context: Context<'pd>)
        requires
            block_size * num_input_channels * 4 <= usize::MAX,
            block_size * num_output_channels * 4 <= usize::MAX,
        ensures
            context.wf(),
            context.channels() == (num_input_channels, num_output_channels),
            context.block_size_spec() == block_size,
            context.sample_rate_spec() == sample_rate,
            context.block_duration_spec() == block_duration,
            context.block_start() == Timestamp(0),
            context.queue() == Seq::<ObjectMessageEntry>::empty(),
            context.names() == Seq::<Seq<char>>::empty(),
            context.receivers() == Seq::<Seq<usize>>::empty(),
            context.external_receivers() == Seq::<Seq<char>>::empty(),
            context.slots() == Seq::new(
                crate::allocator::fixed_size::SLOTS as nat,
                |i: int| None::<Object>,
            ),
            context.graph_slots() == Seq::new(
                crate::allocator::fixed_size::GRAPH_SLOTS as nat,
                |i: int| None::<Graph>,
            ),
            context.input_samples() == Seq::new(
                (block_size * num_input_channels) as nat,
                |i: int| 0u32,
            ),
            context.output_samples() == Seq::new(
                (block_size * num_output_channels) as nat,
                |i: int| 0u32,
            ),
            context.values() == Map::<Seq<char>, u32>::empty(),
            context.values_len() == 0,
    {
        let block_start_timestamp = Timestamp::default();
        let message_callback_queue = OrderedQueue::new();
        proof {
            assert(block_size * num_input_channels <= block_size * num_input_channels * 4)
                by (nonlinear_arith);
            assert(block_size * num_output_channels <= block_size * num_output_channels * 4)
                by (nonlinear_arith);
        }
        let global_dsp_input_buffers = zeroes(block_size * num_input_channels);
        let global_dsp_output_buffers = zeroes(block_size * num_output_channels);
        let send_controller = Controller::new();
        let object_allocator = FixedSizeAllocator::new("object");
        let graph_allocator = GraphAllocator::new("graph");
        let global_graph_id = graph::Id::default();
        let value_map = values_new();
        Context {
            num_input_channels,
            num_output_channels,
            block_size,
            sample_rate,
            global_dsp_input_buffers,
            global_dsp_output_buffers,
            block_start_timestamp,
            block_duration,
            message_callback_queue,
            send_controller,
            object_allocator,
            graph_allocator,
            global_graph_id,
            value_map,
        }
    }

    /// Get the number of input channels
    pub fn get_num_input_channels(&self) -> (n: usize)
        ensures
            n == self.channels().0,
    {
        self.num_input_channels
    }

    /// Get the number of output channels
    pub fn get_num_output_channels(&self) -> (n: usize)
        ensures
            n == self.channels().1,
    {
        self.num_output_channels
    }

    /// Get the size of the audio block we're generating, in samples
    pub fn get_block_size(&self) -> (n: usize)
        ensures
            n == self.block_size_spec(),
    {
        self.block_size
    }

    /// Get the current sample rate, as a single-precision bit pattern
    pub fn get_sample_rate(&self) -> (rate: u32)
        ensures
            rate == self.sample_rate_spec(),
    {
        self.sample_rate
    }

    /// Returns the global DSP buffer from the given inlet on: the samples
    /// of the input buffers from the first of that channel.
    ///
    /// The buffers must reach that far.
    pub fn get_global_dsp_buffer_at_inlet(&self, inlet_index: usize) -> (buffer: &[u32])
        requires
            inlet_index * self.block_size_spec() <= self.input_samples().len(),
        ensures
            buffer@ == self.input_samples().skip(inlet_index * self.block_size_spec()),
    {
        let n = self.global_dsp_input_buffers.len();
        vstd::slice::slice_subrange(
            self.global_dsp_input_buffers.as_slice(),
            inlet_index * self.block_size,
            n,
        )
    }

    /// Returns the global DSP buffer from the given outlet on: the samples
    /// of the output buffers from the first of that channel.
    ///
    /// The buffers must reach that far.
    pub fn get_global_dsp_buffer_at_outlet(&self, outlet_index: usize) -> (buffer: &[u32])
        requires
            outlet_index * self.block_size_spec() <= self.output_samples().len(),
        ensures
            buffer@ == self.output_samples().skip(outlet_index * self.block_size_spec()),
    {
        let n = self.global_dsp_output_buffers.len();
        vstd::slice::slice_subrange(
            self.global_dsp_output_buffers.as_slice(),
            outlet_index * self.block_size,
            n,
        )
    }

    /// Returns the timestamp of the beginning of the current block
    pub fn get_block_start_timestamp(&self) -> (ts: Timestamp)
        ensures
            ts == self.block_start(),
    {
        self.block_start_timestamp
    }

    /// Returns the duration of one block, in whole milliseconds
    pub fn get_block_duration(&self) -> (ms: u64)
        ensures
            ms == self.block_duration_spec(),
    {
        self.block_duration
    }

    /// The allocator that owns the objects
    pub fn objects(&self) -> (allocator: &FixedSizeAllocator)
        ensures
            allocator.slots() == self.slots(),
    {
        &self.object_allocator
    }

    /// The send controller
    pub fn send_controller(&self) -> (controller: &Controller)
        ensures
            controller.names() == self.names(),
            controller.receivers() == self.receivers(),
            controller.external_receivers() == self.external_receivers(),
    {
        &self.send_controller
    }

    /// Get the object with a given object ID, if there is one
    pub fn get_object(&self, object_id: Id) -> (r: Option<&Object>)
        ensures
            r is Some <==> object_id.0 < self.slots().len() && self.slots()[object_id.0 as int]
                is Some,
            r is Some ==> *r->Some_0 == self.slots()[object_id.0 as int]->Some_0,
    {
        self.object_allocator.get(object_id)
    }

    /// Get the graph with a given graph ID, if there is one
    pub fn get_graph(&self, graph_id: graph::Id) -> (r: Option<&Graph>)
        ensures
            r is Some <==> graph_id.0 < self.graph_slots().len() && self.graph_slots()[graph_id.0 as int]
                is Some,
            r is Some ==> *r->Some_0 == self.graph_slots()[graph_id.0 as int]->Some_0,
    {
        self.graph_allocator.get(graph_id)
    }

    /// Is the front of the queue due before `next`?
    fn front_is_due(&self, next: Timestamp) -> (due: bool)
        requires
            crate::message::queue::ordered(self.queue()),
        ensures
            due == (self.queue().len() > 0 && self.queue()[0].stamp().precedes(next)),
    {
        match self.message_callback_queue.peek() {
            Some(entry) => entry.second.first.get_timestamp().is_before(next),
            None => false,
        }
    }

    /// Run the Pure Data engine for one block, which ends at
    /// `next_block_start`.
    ///
    /// The input samples are taken into the input buffers, and the output
    /// buffers are cleared. The queued messages that are due strictly
    /// before `next_block_start` leave the queue, in their order, and are
    /// delivered; a message that is late, due before the start of the
    /// block, is delivered with the start of the block as its time. What
    /// is due at `next_block_start` or later stays queued. The next block
    /// starts at `next_block_start`. The output buffers are copied to
    /// `output_buffers`.
    ///
    /// There must be as many input samples as the input buffers hold.
    pub fn process(
        &mut self,
        next_block_start: Timestamp,
        input_buffers: &[u32],
        output_buffers: &mut Vec<u32>,
    ) -> (block: Block<'pd>)
        requires
            old(self).wf(),
            input_buffers@.len() == old(self).input_samples().len(),
        ensures
            final(self).wf(),
            final(self).block_start() == next_block_start,
            final(self).slots() == old(self).slots(),
            final(self).graph_slots() == old(self).graph_slots(),
            final(self).names() == old(self).names(),
            final(self).receivers() == old(self).receivers(),
            final(self).external_receivers() == old(self).external_receivers(),
            final(self).values() == old(self).values(),
            final(self).values_len() == old(self).values_len(),
            final(self).channels() == old(self).channels(),
            final(self).block_size_spec() == old(self).block_size_spec(),
            final(self).sample_rate_spec() == old(self).sample_rate_spec(),
            final(self).block_duration_spec() == old(self).block_duration_spec(),
            final(self).input_samples() == input_buffers@,
            final(self).output_samples() == Seq::new(
                old(self).output_samples().len(),
                |i: int| 0u32,
            ),
            final(output_buffers)@ == final(self).output_samples(),
            block.dsp_steps@ == all_steps(old(self).graph_slots(), old(self).block_size_spec()),
            exists|n: int| #[trigger]
                is_due_count(old(self).queue(), next_block_start, n) && final(self).queue() == old(self).queue().skip(n) && delivery_views(block.deliveries@) == dispatched(
                    old(self).slots(),
                    old(self).receivers(),
                    old(self).queue().take(n),
                    old(self).block_start(),
                ) && message_views(block.system_messages@) == system_bound(
                    old(self).queue().take(n),
                    old(self).block_start(),
                ),
    {
        // Set up `adc~` buffers
        self.global_dsp_input_buffers = copy_of(input_buffers);
        // Clear the global output audio buffers so that `dac~` nodes can write to it
        self.global_dsp_output_buffers = zeroes(self.global_dsp_output_buffers.len());
        // Send all messages for this block
        let start = self.block_start_timestamp;
        let ghost q0 = self.queue();
        let ghost slots = self.slots();
        let ghost receivers = self.receivers();
        let mut deliveries: Vec<Delivery<'pd>> = Vec::new();
        let mut system_messages: Vec<Message<'pd>> = Vec::new();
        let ghost mut n: int = 0;
        proof {
            assert(q0.skip(0) =~= q0);
            assert(delivery_views(deliveries@) =~= Seq::empty());
            assert(message_views(system_messages@) =~= Seq::empty());
        }
        let mut due = self.front_is_due(next_block_start);
        while due
            invariant
                0 <= n <= q0.len(),
                self.message_callback_queue.wf(),
                self.queue() == q0.skip(n),
                self.slots() == slots,
                self.receivers() == receivers,
                self.names() == old(self).names(),
                self.names().len() == receivers.len(),
                self.send_controller.wf(),
                start == old(self).block_start(),
                forall|i: int|
                    0 <= i < q0.len() ==> routable(
                        slots,
                        receivers.len(),
                        (#[trigger] q0[i]).first,
                        q0[i].second.second,
                    ),
                forall|i: int| 0 <= i < receivers.len() ==> receivers_live(slots, #[trigger] receivers[i]),
                forall|i: int| 0 <= i < n ==> (#[trigger] q0[i]).stamp().precedes(next_block_start),
                due == (n < q0.len() && q0[n].stamp().precedes(next_block_start)),
                delivery_views(deliveries@) == dispatched(slots, receivers, q0.take(n), start),
                message_views(system_messages@) == system_bound(q0.take(n), start),
                self.global_dsp_input_buffers@ == input_buffers@,
                self.global_dsp_output_buffers@ == Seq::new(
                    old(self).output_samples().len(),
                    |i: int| 0u32,
                ),
                self.graph_slots() == old(self).graph_slots(),
                self.external_receivers() == old(self).external_receivers(),
                self.values() == old(self).values(),
                self.values_len() == old(self).values_len(),
                self.channels() == old(self).channels(),
                self.block_size_spec() == old(self).block_size_spec(),
                self.sample_rate_spec() == old(self).sample_rate_spec(),
                self.block_duration_spec() == old(self).block_duration_spec(),
            decreases q0.len() - n,
        {
            // remove the message from the queue
            let popped = self.message_callback_queue.pop();
            let entry = match popped {
                Some(entry) => entry,
                None => {
                    assert(false);
                    vstd::pervasive::unreached()
                },
            };
            assert(entry == q0[n]);
            let object_id = entry.first;
            let index = entry.second.second;
            let mut message = entry.second.first;
            if message.get_timestamp().is_before(start) {
                // messages injected into the system with a timestamp behind
                // the current block are automatically rescheduled for the
                // beginning of the current block.
                message.set_timestamp(start);
            }
            assert(message.timestamp_spec() == effective(q0[n].stamp(), start));
            assert(message@ == q0[n].second.first@);
            assert(routable(slots, receivers.len(), q0[n].first, q0[n].second.second));
            let ghost so_far = delivery_views(deliveries@);
            let ghost system_so_far = message_views(system_messages@);
            if object_id.0 == SEND_CONTROLLER_ID {
                if index.0 == SYSTEM_NAME_INDEX {
                    system_messages.push(message);
                    proof {
                        assert(message_views(system_messages@) =~= system_so_far.push(
                            (effective(q0[n].stamp(), start), q0[n].second.first@),
                        ));
                        assert(delivery_views(deliveries@) =~= so_far + routed(
                            slots,
                            receivers,
                            q0[n],
                            start,
                        ));
                    }
                } else {
                    let mut more = self.send_controller.send_message(
                        &self.object_allocator,
                        index,
                        &message,
                    );
                    proof {
                        assert(delivery_views(deliveries@ + more@) =~= so_far + delivery_views(
                            more@,
                        ));
                    }
                    deliveries.append(&mut more);
                }
            } else {
                let target = object_id.get(&self.object_allocator);
                let mut more = target.receive_message(index, &message);
                proof {
                    assert(delivery_views(deliveries@ + more@) =~= so_far + delivery_views(more@));
                }
                deliveries.append(&mut more);
            }
            proof {
                let next = q0.take(n + 1);
                assert(next.drop_last() =~= q0.take(n));
                assert(next.last() == q0[n]);
                assert(q0.skip(n).drop_first() =~= q0.skip(n + 1));
                n = n + 1;
            }
            due = self.front_is_due(next_block_start);
        }
        let dsp_steps = self.collect_steps();
        self.block_start_timestamp = next_block_start;
        // copy the output audio to the given buffer
        *output_buffers = copy_of(self.global_dsp_output_buffers.as_slice());
        proof {
            assert(is_due_count(old(self).queue(), next_block_start, n));
            assert forall|i: int| 0 <= i < self.queue().len() implies routable(
                self.slots(),
                self.names().len(),
                (#[trigger] self.queue()[i]).first,
                self.queue()[i].second.second,
            ) by {
                assert(self.queue()[i] == q0[i + n]);
            }
        }
        Block { deliveries, system_messages, dsp_steps }
    }

    /// The steps in which the graphs process a block, graph by graph
    fn collect_steps(&self) -> (steps: Vec<DspStep>)
        ensures
            steps@ == all_steps(self.graph_slots(), self.block_size_spec()),
    {
        let n = self.graph_allocator.capacity();
        let mut steps: Vec<DspStep> = Vec::new();
        let mut i: usize = 0;
        while i < n
            invariant
                n == self.graph_slots().len(),
                i <= n,
                steps@ == all_steps(self.graph_slots().take(i as int), self.block_size_spec()),
            decreases n - i,
        {
            proof {
                let next = self.graph_slots().take(i as int + 1);
                assert(next.drop_last() =~= self.graph_slots().take(i as int));
                assert(next.last() == self.graph_slots()[i as int]);
            }
            match self.graph_allocator.get(graph::Id(i)) {
                Some(graph) => {
                    let mut more = graph.process_function(0, self.block_size);
                    steps.append(&mut more);
                },
                None => {
                    assert(steps@ =~= steps@ + Seq::<DspStep>::empty());
                },
            }
            i += 1;
        }
        assert(self.graph_slots().take(n as int) =~= self.graph_slots());
        steps
    }

    /// Get an object with a given object ID, to be changed in place. What
    /// the caller does to the object is done to its slot; it is for the
    /// caller to keep the context in order.
    pub fn get_object_mut(&mut self, object_id: Id) -> (r: Option<&mut Object>)
        ensures
            r is Some <==> object_id.0 < old(self).slots().len() && old(self).slots()[object_id.0 as int] is Some,
            r is Some ==> *r->Some_0 == old(self).slots()[object_id.0 as int]->Some_0 && final(self).slots() == old(self).slots().update(object_id.0 as int, Some(*final(r->Some_0))),
            r is None ==> final(self).slots() == old(self).slots(),
            final(self).same_but_objects(old(self)),
            final(self).graph_slots() == old(self).graph_slots(),
    {
        self.object_allocator.get_mut(object_id)
    }

    /// Get the graph with a given graph ID, to be changed in place. What
    /// the caller does to the graph is done to its slot; it is for the
    /// caller to keep the context in order.
    pub fn get_graph_mut(&mut self, graph_id: graph::Id) -> (r: Option<&mut Graph>)
        ensures
            r is Some <==> graph_id.0 < old(self).graph_slots().len() && old(self).graph_slots()[graph_id.0 as int] is Some,
            r is Some ==> *r->Some_0 == old(self).graph_slots()[graph_id.0 as int]->Some_0
                && final(self).graph_slots() == old(self).graph_slots().update(
                graph_id.0 as int,
                Some(*final(r->Some_0)),
            ),
            r is None ==> final(self).graph_slots() == old(self).graph_slots(),
            final(self).same_but_objects(old(self)),
            final(self).slots() == old(self).slots(),
    {
        self.graph_allocator.get_mut(graph_id)
    }

    /// Create a graph without objects in the lowest free slot, and return
    /// its id.
    ///
    /// A slot must be free.
    pub fn create_graph(&mut self) -> (id: graph::Id)
        requires
            old(self).wf(),
            has_free_slot(old(self).graph_slots()),
        ensures
            final(self).wf(),
            final(self).same_but_objects(old(self)),
            final(self).slots() == old(self).slots(),
            is_lowest_free(old(self).graph_slots(), id.0 as int),
            final(self).graph_slots().len() == old(self).graph_slots().len(),
            forall|g: int|
                0 <= g < old(self).graph_slots().len() && g != id.0 ==> final(self).graph_slots()[g] == old(self).graph_slots()[g],
            final(self).graph_slots()[id.0 as int] is Some,
            final(self).graph_slots()[id.0 as int]->Some_0.id_spec() == id,
            final(self).graph_slots()[id.0 as int]->Some_0.nodes() == Seq::<Id>::empty(),
            final(self).graph_slots()[id.0 as int]->Some_0.inlets() == Seq::<Id>::empty(),
            final(self).graph_slots()[id.0 as int]->Some_0.outlets() == Seq::<Id>::empty(),
            final(self).graph_slots()[id.0 as int]->Some_0.process_order() == Seq::<Id>::empty(),
    {
        let make = |id: graph::Id| -> (made: Graph)
            ensures
                made.id_spec() == id,
                made.nodes() == Seq::<Id>::empty(),
                made.inlets() == Seq::<Id>::empty(),
                made.outlets() == Seq::<Id>::empty(),
                made.process_order() == Seq::<Id>::empty(),
            { Graph::new(id) };
        let graph = self.graph_allocator.allocate(make);
        let id = graph.id();
        self.global_graph_id = id;
        id
    }

    /// Add the object to the graph at the given position on the canvas;
    /// see `Graph::add_object`.
    ///
    /// Fails with `IndexOutOfBounds`, and changes nothing, where there is
    /// no such graph or no such object.
    pub fn add_object(
        &mut self,
        graph_id: graph::Id,
        canvas_x: u32,
        canvas_y: u32,
        object_id: Id,
    ) -> (r: Result<(), Error>)
        requires
            old(self).wf(),
        ensures
            final(self).wf(),
            final(self).same_but_objects(old(self)),
            r is Ok <==> is_live(old(self).slots(), object_id) && graph_id.0 < old(self).graph_slots().len() && old(self).graph_slots()[graph_id.0 as int] is Some,
            r is Err ==> r->Err_0.kind_spec() == ErrorKind::IndexOutOfBounds && final(self).slots()
                == old(self).slots() && final(self).graph_slots() == old(self).graph_slots(),
            r is Ok ==> final(self).graph_slots().len() == old(self).graph_slots().len() && final(self).graph_slots()[graph_id.0 as int] is Some && final(self).graph_slots()[graph_id.0 as int]->Some_0.nodes() == old(self).graph_slots()[graph_id.0 as int]->Some_0.nodes().push(object_id),
            r is Ok ==> topology_same(old(self).slots(), final(self).slots()),
    {
        if self.object_allocator.get(object_id).is_none() {
            return Err(Error::new(ErrorKind::IndexOutOfBounds));
        }
        let ghost before = self.slots();
        let ghost graphs = self.graph_slots();
        match self.graph_allocator.get_mut(graph_id) {
            Some(graph) => {
                assert(graph_in_order(before, *graph));
                graph.add_object(&mut self.object_allocator, canvas_x, canvas_y, object_id);
            },
            None => {
                return Err(Error::new(ErrorKind::IndexOutOfBounds));
            },
        }
        proof {
            let after = self.slots();
            assert(graphs[graph_id.0 as int] is Some);
            assert forall|i: int| 0 <= i < after.len() implies (before[i] is Some) == (after[i]
                is Some) by {}
            assert(crate::pd::graph::topology(after) =~= crate::pd::graph::topology(before));
            assert forall|i: int, j: int, k: int|
                0 <= i < after.len() && after[i] is Some && 0 <= j
                    < after[i]->Some_0.incoming().len() && 0 <= k
                    < after[i]->Some_0.incoming()[j].len() implies is_live(
                after,
                (#[trigger] after[i]->Some_0.incoming()[j][k]).first,
            ) by {
                assert(after[i]->Some_0.incoming() == before[i]->Some_0.incoming());
                assert(is_live(before, before[i]->Some_0.incoming()[j][k].first));
            }
            assert forall|i: int| 0 <= i < self.queue().len() implies routable(
                after,
                self.names().len(),
                (#[trigger] self.queue()[i]).first,
                self.queue()[i].second.second,
            ) by {
                assert(routable(
                    before,
                    self.names().len(),
                    self.queue()[i].first,
                    self.queue()[i].second.second,
                ));
            }
            assert forall|i: int| 0 <= i < self.receivers().len() implies receivers_live(
                after,
                #[trigger] self.receivers()[i],
            ) by {
                assert(receivers_live(before, self.receivers()[i]));
            }
            assert forall|g: int|
                0 <= g < self.graph_slots().len() && (#[trigger] self.graph_slots()[g])
                    is Some implies graph_in_order(after, self.graph_slots()[g]->Some_0) by {
                let graph = self.graph_slots()[g]->Some_0;
                if g != graph_id.0 {
                    assert(graph == graphs[g]->Some_0);
                    assert(graph_in_order(before, graph));
                    assert forall|k: int| 0 <= k < graph.nodes().len() implies is_live(
                        after,
                        #[trigger] graph.nodes()[k],
                    ) by {
                        assert(is_live(before, graph.nodes()[k]));
                    }
                    assert forall|k: int| 0 <= k < graph.inlets().len() implies is_live(
                        after,
                        #[trigger] graph.inlets()[k],
                    ) by {
                        assert(is_live(before, graph.inlets()[k]));
                    }
                    assert forall|k: int| 0 <= k < graph.outlets().len() implies is_live(
                        after,
                        #[trigger] graph.outlets()[k],
                    ) by {
                        assert(is_live(before, graph.outlets()[k]));
                    }
                } else {
                    let was = graphs[g]->Some_0;
                    assert(graph_in_order(before, was));
                    assert forall|k: int| 0 <= k < graph.nodes().len() implies is_live(
                        after,
                        #[trigger] graph.nodes()[k],
                    ) by {
                        if k < was.nodes().len() {
                            assert(is_live(before, was.nodes()[k]));
                        }
                    }
                    assert forall|k: int| 0 <= k < graph.inlets().len() implies is_live(
                        after,
                        #[trigger] graph.inlets()[k],
                    ) by {
                        graph.lemma_lets_from(&was, object_id, k);
                        if graph.inlets()[k] != object_id {
                            let w = choose|w: int|
                                0 <= w < was.inlets().len() && was.inlets()[w] == graph.inlets()[k];
                            assert(is_live(before, was.inlets()[w]));
                        }
                    }
                    assert forall|k: int| 0 <= k < graph.outlets().len() implies is_live(
                        after,
                        #[trigger] graph.outlets()[k],
                    ) by {
                        graph.lemma_lets_from(&was, object_id, k);
                        if graph.outlets()[k] != object_id {
                            let w = choose|w: int|
                                0 <= w < was.outlets().len() && was.outlets()[w]
                                    == graph.outlets()[k];
                            assert(is_live(before, was.outlets()[w]));
                        }
                    }
                }
            }
        }
        Ok(())
    }

    /// Connect an outlet of one object to an inlet of another; see
    /// `Graph::add_connection`.
    ///
    /// Fails with `IndexOutOfBounds` where one of the objects is not
    /// there, and with `BufferOverflow` where the inlet or the outlet can
    /// hold no more connections; the context then stays as it is.
    pub fn add_connection(
        &mut self,
        from_object: Id,
        outlet_index: Index,
        to_object: Id,
        inlet_index: Index,
    ) -> (r: Result<Connected, Error>)
        requires
            old(self).wf(),
        ensures
            final(self).wf(),
            final(self).same_but_objects(old(self)),
            final(self).graph_slots() == old(self).graph_slots(),
            final(self).slots().len() == old(self).slots().len(),
            !(is_live(old(self).slots(), from_object) && is_live(old(self).slots(), to_object))
                ==> r is Err && r->Err_0.kind_spec() == ErrorKind::IndexOutOfBounds && final(self).slots() == old(self).slots(),
            is_live(old(self).slots(), from_object) && is_live(old(self).slots(), to_object) ==> {
                let from_before = old(self).slots()[from_object.0 as int]->Some_0;
                let to_before = old(self).slots()[to_object.0 as int]->Some_0;
                let fits = outlet_index.0 < from_before.outgoing().len() && inlet_index.0
                    < to_before.incoming().len();
                let room = fits && from_before.outgoing()[outlet_index.0 as int].len()
                    < CONNECTION_LIST_SIZE && to_before.incoming()[inlet_index.0 as int].len()
                    < CONNECTION_LIST_SIZE;
                &&& r is Err <==> fits && !room
                &&& r is Err ==> r->Err_0.kind_spec() == ErrorKind::BufferOverflow
                &&& r == Ok::<Connected, Error>(Connected::Mismatched) <==> !fits
                &&& !room ==> final(self).slots() == old(self).slots()
                &&& room ==> connected(
                    old(self).slots(),
                    final(self).slots(),
                    from_object,
                    outlet_index,
                    to_object,
                    inlet_index,
                ) && forall|i: int|
                    0 <= i < old(self).slots().len() && i != from_object.0 && i != to_object.0
                        ==> final(self).slots()[i] == old(self).slots()[i]
            },
    {
        if self.object_allocator.get(from_object).is_none() || self.object_allocator.get(
            to_object,
        ).is_none() {
            return Err(Error::new(ErrorKind::IndexOutOfBounds));
        }
        let ghost before = self.slots();
        let r = Graph::add_connection(
            &mut self.object_allocator,
            from_object,
            outlet_index,
            to_object,
            inlet_index,
        );
        proof {
            let after = self.slots();
            assert forall|i: int| 0 <= i < after.len() implies (before[i] is Some) == (after[i]
                is Some) by {}
            self.lemma_liveness_keeps_order(before);
        }
        r
    }

    /// Take away the connection from an outlet of one object to an inlet
    /// of another, on both sides; see `Graph::remove_connection`.
    ///
    /// Fails with `IndexOutOfBounds`, and changes nothing, where one of
    /// the objects is not there, has no such outlet or inlet, or the
    /// connection is not there on both sides.
    pub fn remove_connection(
        &mut self,
        from_object: Id,
        outlet_index: Index,
        to_object: Id,
        inlet_index: Index,
    ) -> (r: Result<(), Error>)
        requires
            old(self).wf(),
        ensures
            final(self).wf(),
            final(self).same_but_objects(old(self)),
            final(self).graph_slots() == old(self).graph_slots(),
            final(self).slots().len() == old(self).slots().len(),
            r is Ok <==> is_wired(
                old(self).slots(),
                from_object,
                outlet_index,
                to_object,
                inlet_index,
            ),
            r is Err ==> r->Err_0.kind_spec() == ErrorKind::IndexOutOfBounds && final(self).slots()
                == old(self).slots(),
            r is Ok ==> disconnected(
                old(self).slots(),
                final(self).slots(),
                from_object,
                outlet_index,
                to_object,
                inlet_index,
            ) && forall|i: int|
                0 <= i < old(self).slots().len() && i != from_object.0 && i != to_object.0
                    ==> final(self).slots()[i] == old(self).slots()[i],
    {
        let wired = match self.object_allocator.get(from_object) {
            Some(from) => match self.object_allocator.get(to_object) {
                Some(to) => outlet_index.0 < from.get_num_outlets() && inlet_index.0
                    < to.get_num_inlets() && to.get_incoming_connections(inlet_index).position(
                    Connection::new(from_object, outlet_index),
                ).is_some() && from.get_outgoing_connections(outlet_index).position(
                    Connection::new(to_object, inlet_index),
                ).is_some(),
                None => false,
            },
            None => false,
        };
        if !wired {
            return Err(Error::new(ErrorKind::IndexOutOfBounds));
        }
        let ghost before = self.slots();
        Graph::remove_connection(
            &mut self.object_allocator,
            from_object,
            outlet_index,
            to_object,
            inlet_index,
        );
        proof {
            self.lemma_liveness_keeps_order(before);
        }
        Ok(())
    }

    /// Remove the object from the graph; see `Graph::remove_object`.
    ///
    /// Fails with `IndexOutOfBounds`, and changes nothing, where there is
    /// no such graph or no such object.
    pub fn remove_object(&mut self, graph_id: graph::Id, object_id: Id) -> (r: Result<(), Error>)
        requires
            old(self).wf(),
        ensures
            final(self).wf(),
            final(self).same_but_objects(old(self)),
            r is Ok <==> is_live(old(self).slots(), object_id) && graph_id.0 < old(self).graph_slots().len() && old(self).graph_slots()[graph_id.0 as int] is Some,
            r is Err ==> r->Err_0.kind_spec() == ErrorKind::IndexOutOfBounds && final(self).slots()
                == old(self).slots() && final(self).graph_slots() == old(self).graph_slots(),
            r is Ok ==> {
                let was = old(self).graph_slots()[graph_id.0 as int]->Some_0;
                &&& unwired(old(self).slots(), final(self).slots(), object_id)
                &&& final(self).graph_slots().len() == old(self).graph_slots().len()
                &&& forall|g: int|
                    0 <= g < old(self).graph_slots().len() && g != graph_id.0 ==> final(self).graph_slots()[g] == old(self).graph_slots()[g]
                &&& final(self).graph_slots()[graph_id.0 as int] is Some
                &&& final(self).graph_slots()[graph_id.0 as int]->Some_0.nodes() == without_id(
                    was.nodes(),
                    object_id,
                )
                &&& final(self).graph_slots()[graph_id.0 as int]->Some_0.inlets() == without_id(
                    was.inlets(),
                    object_id,
                )
                &&& final(self).graph_slots()[graph_id.0 as int]->Some_0.outlets() == without_id(
                    was.outlets(),
                    object_id,
                )
                &&& final(self).graph_slots()[graph_id.0 as int]->Some_0.process_order()
                    == without_id(was.process_order(), object_id)
            },
    {
        if self.object_allocator.get(object_id).is_none() {
            return Err(Error::new(ErrorKind::IndexOutOfBounds));
        }
        let ghost before = self.slots();
        let ghost graphs = self.graph_slots();
        match self.graph_allocator.get_mut(graph_id) {
            Some(graph) => {
                graph.remove_object(&mut self.object_allocator, object_id);
            },
            None => {
                return Err(Error::new(ErrorKind::IndexOutOfBounds));
            },
        }
        proof {
            let after = self.slots();
            assert forall|i: int| 0 <= i < before.len() implies (before[i] is Some) == (
            #[trigger] after[i] is Some) by {
                assert(unwired_at(before[i], after[i], i, object_id));
            }
            assert forall|g: int|
                0 <= g < self.graph_slots().len() && (#[trigger] self.graph_slots()[g])
                    is Some implies graph_in_order(before, self.graph_slots()[g]->Some_0) by {
                let graph = self.graph_slots()[g]->Some_0;
                assert(graphs[g] is Some);
                let was = graphs[g]->Some_0;
                assert(graph_in_order(before, was));
                if g == graph_id.0 {
                    lemma_without_id(was.nodes(), object_id);
                    lemma_without_id(was.inlets(), object_id);
                    lemma_without_id(was.outlets(), object_id);
                    assert forall|k: int| 0 <= k < graph.nodes().len() implies is_live(
                        before,
                        #[trigger] graph.nodes()[k],
                    ) by {
                        let w = choose|w: int|
                            0 <= w < was.nodes().len() && was.nodes()[w] == graph.nodes()[k];
                        assert(is_live(before, was.nodes()[w]));
                    }
                    assert forall|k: int| 0 <= k < graph.inlets().len() implies is_live(
                        before,
                        #[trigger] graph.inlets()[k],
                    ) by {
                        let w = choose|w: int|
                            0 <= w < was.inlets().len() && was.inlets()[w] == graph.inlets()[k];
                        assert(is_live(before, was.inlets()[w]));
                    }
                    assert forall|k: int| 0 <= k < graph.outlets().len() implies is_live(
                        before,
                        #[trigger] graph.outlets()[k],
                    ) by {
                        let w = choose|w: int|
                            0 <= w < was.outlets().len() && was.outlets()[w] == graph.outlets()[k];
                        assert(is_live(before, was.outlets()[w]));
                    }
                }
            }
            self.lemma_liveness_keeps_order(before);
        }
        Ok(())
    }

    /// A context whose queue, receivers and graphs were in order over the
    /// slots `before` is in order over its own slots where these hold
    /// objects in the same places.
    proof fn lemma_liveness_keeps_order(&self, before: Seq<Option<Object>>)
        requires
            before.len() == self.slots().len(),
            forall|i: int|
                0 <= i < before.len() ==> (before[i] is Some) == (#[trigger] self.slots()[i]
                    is Some),
            forall|i: int|
                0 <= i < self.queue().len() ==> routable(
                    before,
                    self.names().len(),
                    (#[trigger] self.queue()[i]).first,
                    self.queue()[i].second.second,
                ),
            forall|i: int|
                0 <= i < self.receivers().len() ==> receivers_live(
                    before,
                    #[trigger] self.receivers()[i],
                ),
            forall|g: int|
                0 <= g < self.graph_slots().len() && (#[trigger] self.graph_slots()[g]) is Some
                    ==> graph_in_order(before, self.graph_slots()[g]->Some_0),
        ensures
            forall|i: int|
                0 <= i < self.queue().len() ==> routable(
                    self.slots(),
                    self.names().len(),
                    (#[trigger] self.queue()[i]).first,
                    self.queue()[i].second.second,
                ),
            forall|i: int|
                0 <= i < self.receivers().len() ==> receivers_live(
                    self.slots(),
                    #[trigger] self.receivers()[i],
                ),
            forall|g: int|
                0 <= g < self.graph_slots().len() && (#[trigger] self.graph_slots()[g]) is Some
                    ==> graph_in_order(self.slots(), self.graph_slots()[g]->Some_0),
    {
        let after = self.slots();
        assert forall|i: int| 0 <= i < self.queue().len() implies routable(
            after,
            self.names().len(),
            (#[trigger] self.queue()[i]).first,
            self.queue()[i].second.second,
        ) by {
            assert(routable(
                before,
                self.names().len(),
                self.queue()[i].first,
                self.queue()[i].second.second,
            ));
        }
        assert forall|i: int| 0 <= i < self.receivers().len() implies receivers_live(
            after,
            #[trigger] self.receivers()[i],
        ) by {
            assert(receivers_live(before, self.receivers()[i]));
            assert forall|j: int| 0 <= j < self.receivers()[i].len() implies (
            #[trigger] self.receivers()[i][j]) < after.len() && after[self.receivers()[i][j] as int]
                is Some by {
                assert(before[self.receivers()[i][j] as int] is Some);
            }
        }
        assert forall|g: int|
            0 <= g < self.graph_slots().len() && (#[trigger] self.graph_slots()[g])
                is Some implies graph_in_order(after, self.graph_slots()[g]->Some_0) by {
            let graph = self.graph_slots()[g]->Some_0;
            assert(graph_in_order(before, graph));
            assert forall|k: int| 0 <= k < graph.nodes().len() implies is_live(
                after,
                #[trigger] graph.nodes()[k],
            ) by {
                assert(is_live(before, graph.nodes()[k]));
            }
            assert forall|k: int| 0 <= k < graph.inlets().len() implies is_live(
                after,
                #[trigger] graph.inlets()[k],
            ) by {
                assert(is_live(before, graph.inlets()[k]));
            }
            assert forall|k: int| 0 <= k < graph.outlets().len() implies is_live(
                after,
                #[trigger] graph.outlets()[k],
            ) by {
                assert(is_live(before, graph.outlets()[k]));
            }
        }
    }

    /// Recompute the order in which the objects of the graph process
    /// audio; see `Graph::compute_deep_local_process_order`.
    ///
    /// Fails with `IndexOutOfBounds`, and changes nothing, where there is
    /// no such graph.
    pub fn compute_process_order(&mut self, graph_id: graph::Id) -> (r: Result<(), Error>)
        requires
            old(self).wf(),
        ensures
            final(self).wf(),
            final(self).same_but_objects(old(self)),
            final(self).slots().len() == old(self).slots().len(),
            topology(final(self).slots()) == topology(old(self).slots()),
            r is Ok <==> graph_id.0 < old(self).graph_slots().len() && old(self).graph_slots()[graph_id.0 as int] is Some,
            r is Err ==> r->Err_0.kind_spec() == ErrorKind::IndexOutOfBounds && final(self).slots()
                == old(self).slots() && final(self).graph_slots() == old(self).graph_slots(),
            r is Ok ==> {
                let was = old(self).graph_slots()[graph_id.0 as int]->Some_0;
                let order = local_process_order(
                    topology(old(self).slots()),
                    visited_of(old(self).slots()),
                    was.nodes(),
                );
                &&& final(self).graph_slots().len() == old(self).graph_slots().len()
                &&& forall|g: int|
                    0 <= g < old(self).graph_slots().len() && g != graph_id.0 ==> final(self).graph_slots()[g] == old(self).graph_slots()[g]
                &&& final(self).graph_slots()[graph_id.0 as int] is Some
                &&& final(self).graph_slots()[graph_id.0 as int]->Some_0.nodes() == was.nodes()
                &&& final(self).graph_slots()[graph_id.0 as int]->Some_0.inlets() == was.inlets()
                &&& final(self).graph_slots()[graph_id.0 as int]->Some_0.outlets() == was.outlets()
                &&& final(self).graph_slots()[graph_id.0 as int]->Some_0.process_order() == order.0
                &&& visited_of(final(self).slots()) == order.1
            },
    {
        let ghost before = self.slots();
        let ghost graphs = self.graph_slots();
        match self.graph_allocator.get_mut(graph_id) {
            Some(graph) => {
                assert(graph_in_order(before, *graph));
                graph.compute_deep_local_process_order(&mut self.object_allocator);
            },
            None => {
                return Err(Error::new(ErrorKind::IndexOutOfBounds));
            },
        }
        proof {
            let after = self.slots();
            assert forall|i: int| 0 <= i < after.len() implies (before[i] is Some) == (after[i]
                is Some) by {
                assert(topology(before)[i] is Some == before[i] is Some);
                assert(topology(after)[i] is Some == after[i] is Some);
            }
            assert forall|g: int|
                0 <= g < self.graph_slots().len() && (#[trigger] self.graph_slots()[g])
                    is Some implies graph_in_order(before, self.graph_slots()[g]->Some_0) by {
                assert(graphs[g] is Some);
                assert(graph_in_order(before, graphs[g]->Some_0));
            }
            self.lemma_liveness_keeps_order(before);
        }
        Ok(())
    }

    /// Globally register a remote message receiver (e.g. `receive` or
    /// `notein`); see `Controller::add_receiver`.
    ///
    /// Fails with `IndexOutOfBounds`, and changes nothing, where the
    /// receiver is no object of the context.
    pub fn register_remote_message_receiver(&mut self, receiver: RemoteMessageReceiver) -> (r:
        Result<(), Error>)
        requires
            old(self).wf(),
        ensures
            final(self).wf(),
            final(self).queue() == old(self).queue(),
            final(self).slots() == old(self).slots(),
            final(self).graph_slots() == old(self).graph_slots(),
            final(self).external_receivers() == old(self).external_receivers(),
            final(self).block_start() == old(self).block_start(),
            !is_live(old(self).slots(), receiver.object_id) ==> r is Err && r->Err_0.kind_spec()
                == ErrorKind::IndexOutOfBounds && final(self).names() == old(self).names() && final(self).receivers() == old(self).receivers(),
            is_live(old(self).slots(), receiver.object_id) ==> added_receiver(
                old(self).names(),
                old(self).receivers(),
                receiver.name@,
                receiver.name.spec_bytes().len(),
                receiver.object_id.0,
                final(self).names(),
                final(self).receivers(),
                r,
            ),
    {
        if self.object_allocator.get(receiver.object_id).is_none() {
            return Err(Error::new(ErrorKind::IndexOutOfBounds));
        }
        let r = self.send_controller.add_receiver(receiver);
        proof {
            let slots = self.slots();
            let was = old(self).receivers();
            let now = self.receivers();
            assert forall|i: int| 0 <= i < now.len() implies receivers_live(
                slots,
                #[trigger] now[i],
            ) by {
                if i < was.len() {
                    assert(receivers_live(slots, was[i]));
                    if now[i] != was[i] {
                        assert forall|j: int| 0 <= j < now[i].len() implies (#[trigger] now[i][j])
                            < slots.len() && slots[now[i][j] as int] is Some by {
                            if j < was[i].len() {
                                assert(now[i][j] == was[i][j]);
                            }
                        }
                    }
                }
            }
            assert forall|i: int| 0 <= i < self.queue().len() implies routable(
                slots,
                self.names().len(),
                (#[trigger] self.queue()[i]).first,
                self.queue()[i].second.second,
            ) by {
                assert(routable(
                    slots,
                    old(self).names().len(),
                    old(self).queue()[i].first,
                    old(self).queue()[i].second.second,
                ));
            }
        }
        r
    }

    /// Can the context take one more object?
    pub fn has_room_for_object(&self) -> (b: bool)
        ensures
            b == has_free_slot(self.slots()),
    {
        !self.object_allocator.is_full()
    }

    /// Can the context take one more graph?
    pub fn has_room_for_graph(&self) -> (b: bool)
        ensures
            b == has_free_slot(self.graph_slots()),
    {
        !self.graph_allocator.is_full()
    }

    /// Create an object of the given type, with the given numbers of
    /// inlets and outlets, in the lowest free slot, and return its id.
    ///
    /// A slot must be free. Fails with `BufferOverflow`, and changes
    /// nothing, when a connection table cannot hold so many inlets or
    /// outlets.
    pub fn create_object(&mut self, object_type: Type, num_inlets: usize, num_outlets: usize) -> (r:
        Result<Id, Error>)
        requires
            old(self).wf(),
            has_free_slot(old(self).slots()),
        ensures
            final(self).wf(),
            final(self).same_but_objects(old(self)),
            final(self).graph_slots() == old(self).graph_slots(),
            r is Ok <==> num_inlets <= crate::message::object::connection::table::CONNECTION_TABLE_SIZE
                && num_outlets
                <= crate::message::object::connection::table::CONNECTION_TABLE_SIZE,
            r is Err ==> r->Err_0.kind_spec() == ErrorKind::BufferOverflow && final(self).slots()
                == old(self).slots(),
            r is Ok ==> {
                let id = r->Ok_0;
                &&& is_lowest_free(old(self).slots(), id.0 as int)
                &&& final(self).slots().len() == old(self).slots().len()
                &&& forall|i: int|
                    0 <= i < old(self).slots().len() && i != id.0 ==> final(self).slots()[i] == old(self).slots()[i]
                &&& final(self).slots()[id.0 as int] is Some
                &&& ({
                    let object = final(self).slots()[id.0 as int]->Some_0;
                    &&& object.id_spec() == id
                    &&& object.type_spec() == object_type
                    &&& object.incoming() == Seq::new(
                        num_inlets as nat,
                        |i: int| Seq::<Connection>::empty(),
                    )
                    &&& object.outgoing() == Seq::new(
                        num_outlets as nat,
                        |i: int| Seq::<Connection>::empty(),
                    )
                    &&& !object.ordered_spec()
                })
            },
    {
        let ghost before = self.slots();
        let id = match Object::with_lets(
            &mut self.object_allocator,
            object_type,
            num_inlets,
            num_outlets,
        ) {
            Ok(object) => object.id(),
            Err(e) => {
                return Err(e);
            },
        };
        proof {
            let after = self.slots();
            assert(after[id.0 as int]->Some_0.incoming().len() == num_inlets);
            assert forall|i: int, j: int, k: int|
                0 <= i < after.len() && after[i] is Some && 0 <= j
                    < after[i]->Some_0.incoming().len() && 0 <= k
                    < after[i]->Some_0.incoming()[j].len() implies is_live(
                after,
                (#[trigger] after[i]->Some_0.incoming()[j][k]).first,
            ) by {
                if i != id.0 {
                    assert(is_live(before, before[i]->Some_0.incoming()[j][k].first));
                }
            }
            assert forall|i: int| 0 <= i < self.queue().len() implies routable(
                after,
                self.names().len(),
                (#[trigger] self.queue()[i]).first,
                self.queue()[i].second.second,
            ) by {
                assert(routable(
                    before,
                    self.names().len(),
                    self.queue()[i].first,
                    self.queue()[i].second.second,
                ));
            }
            assert forall|i: int| 0 <= i < self.receivers().len() implies receivers_live(
                after,
                #[trigger] self.receivers()[i],
            ) by {
                assert(receivers_live(before, self.receivers()[i]));
            }
            assert forall|g: int|
                0 <= g < self.graph_slots().len() && (#[trigger] self.graph_slots()[g])
                    is Some implies graph_in_order(after, self.graph_slots()[g]->Some_0) by {
                let graph = self.graph_slots()[g]->Some_0;
                assert(graph_in_order(before, graph));
                assert forall|k: int| 0 <= k < graph.nodes().len() implies is_live(
                    after,
                    #[trigger] graph.nodes()[k],
                ) by {
                    assert(is_live(before, graph.nodes()[k]));
                }
                assert forall|k: int| 0 <= k < graph.inlets().len() implies is_live(
                    after,
                    #[trigger] graph.inlets()[k],
                ) by {
                    assert(is_live(before, graph.inlets()[k]));
                }
                assert forall|k: int| 0 <= k < graph.outlets().len() implies is_live(
                    after,
                    #[trigger] graph.outlets()[k],
                ) by {
                    assert(is_live(before, graph.outlets()[k]));
                }
            }
        }
        Ok(id)
    }

    /// Schedules a `pd::Message` to be delivered to the object with the
    /// given id, at the given inlet, at the time of the message. An entry
    /// for the send controller, `SEND_CONTROLLER_ID`, is delivered to the
    /// receivers of the name with the given index.
    ///
    /// Fails with `IndexOutOfBounds` where there is no such object, or no
    /// such name, and with `BufferOverflow` where the queue is full; the
    /// context then stays as it is.
    pub fn schedule_message(&mut self, object_id: Id, index: Index, message: Message<'pd>) -> (r:
        Result<(), Error>)
        requires
            old(self).wf(),
        ensures
            final(self).wf(),
            final(self).same_but_queue(old(self)),
            r is Ok <==> routable(old(self).slots(), old(self).names().len(), object_id, index)
                && old(self).queue().len() < MAX_LIST_SIZE,
            r is Err ==> final(self).queue() == old(self).queue() && r->Err_0.kind_spec() == if routable(
                old(self).slots(),
                old(self).names().len(),
                object_id,
                index,
            ) {
                ErrorKind::BufferOverflow
            } else {
                ErrorKind::IndexOutOfBounds
            },
            r is Ok ==> exists|p: int| #[trigger]
                is_insertion_point(old(self).queue(), message.timestamp_spec(), p) && final(self).queue() == old(self).queue().insert(
                    p,
                    ObjectMessageEntry {
                        first: object_id,
                        second: MessageEntry { first: message, second: index },
                    },
                ),
    {
        let can_route = if object_id.0 == SEND_CONTROLLER_ID {
            index.0 == SYSTEM_NAME_INDEX || index.0 < self.send_controller.num_names()
        } else {
            self.object_allocator.get(object_id).is_some()
        };
        if !can_route {
            return Err(Error::new(ErrorKind::IndexOutOfBounds));
        }
        let ghost entry = ObjectMessageEntry {
            first: object_id,
            second: MessageEntry { first: message, second: index },
        };
        let r = self.message_callback_queue.insert_message(object_id, index, message);
        proof {
            if r is Ok {
                let p = choose|p: int| #[trigger]
                    is_insertion_point(old(self).queue(), entry.stamp(), p) && self.queue() == old(self).queue().insert(p, entry);
                assert forall|i: int| 0 <= i < self.queue().len() implies routable(
                    self.slots(),
                    self.names().len(),
                    (#[trigger] self.queue()[i]).first,
                    self.queue()[i].second.second,
                ) by {
                    if i < p {
                        assert(self.queue()[i] == old(self).queue()[i]);
                    } else if i > p {
                        assert(self.queue()[i] == old(self).queue()[i - 1]);
                    }
                }
            }
        }
        r
    }

    /// Cancel a scheduled `pd::Message`: the first queued entry for the
    /// given object and inlet with an equal message leaves the queue.
    /// Where there is none, be it that the message was delivered or that
    /// it was never scheduled, nothing changes.
    pub fn cancel_message(&mut self, object_id: Id, index: Index, message: &Message<'pd>)
        requires
            old(self).wf(),
        ensures
            final(self).wf(),
            final(self).same_but_queue(old(self)),
            no_match(old(self).queue(), object_id, index, message) ==> final(self).queue() == old(self).queue(),
            !no_match(old(self).queue(), object_id, index, message) ==> exists|m: int| #[trigger]
                is_first_match(old(self).queue(), object_id, index, message, m) && final(self).queue() == old(self).queue().remove(m),
    {
        self.message_callback_queue.remove_message(object_id, index, message);
        proof {
            if !no_match(old(self).queue(), object_id, index, message) {
                let m = choose|m: int| #[trigger]
                    is_first_match(old(self).queue(), object_id, index, message, m) && self.queue()
                        == old(self).queue().remove(m);
                assert forall|i: int| 0 <= i < self.queue().len() implies routable(
                    self.slots(),
                    self.names().len(),
                    (#[trigger] self.queue()[i]).first,
                    self.queue()[i].second.second,
                ) by {
                    if i < m {
                        assert(self.queue()[i] == old(self).queue()[i]);
                    } else {
                        assert(self.queue()[i] == old(self).queue()[i + 1]);
                    }
                }
            }
        }
    }

    /// Sends the given message to all `receive` objects with the given `name`.
    ///
    /// This function is used by message boxes to send messages described be the syntax:
    ///
    /// `name message;`
    ///
    /// The message is delivered at once, without the queue; the calls of
    /// `process_message` that this leads to are returned.
    pub fn send_message_to_named_receivers(&self, name: &str, message: &Message<'pd>) -> (deliveries:
        Vec<Delivery<'pd>>)
        requires
            self.wf(),
        ensures
            name@ == "pd"@ || !self.names().contains(name@) ==> deliveries@.len() == 0,
            name@ != "pd"@ && self.names().contains(name@) ==> exists|i: int| #[trigger]
                is_name_place(self.names(), name@, i) && delivery_views(deliveries@)
                    == received_by_all(
                    self.slots(),
                    self.receivers()[i],
                    message.timestamp_spec(),
                    message@,
                ),
    {
        self.send_controller.receive_message(&self.object_allocator, name, message)
    }

    /// Schedules a message to be sent to all receivers of the given name
    /// at the time of the message. A name that has no receivers leads to
    /// nothing.
    ///
    /// Fails with `BufferOverflow`, and changes nothing, where the queue
    /// is full.
    pub fn schedule_external_message(&mut self, receiver_name: &str, message: &Message<'pd>) -> (r:
        Result<(), Error>)
        requires
            old(self).wf(),
        ensures
            final(self).wf(),
            final(self).same_but_queue(old(self)),
            r is Err <==> (receiver_name@ == "pd"@ || old(self).names().contains(receiver_name@))
                && old(self).queue().len() >= MAX_LIST_SIZE,
            r is Err ==> r->Err_0.kind_spec() == ErrorKind::BufferOverflow,
            r is Err || !(receiver_name@ == "pd"@ || old(self).names().contains(receiver_name@))
                ==> final(self).queue() == old(self).queue(),
            r is Ok && (receiver_name@ == "pd"@ || old(self).names().contains(receiver_name@))
                ==> exists|p: int, e: ObjectMessageEntry<'pd>| #[trigger]
                is_insertion_point(old(self).queue(), message.timestamp_spec(), p)
                    && #[trigger] old(self).queue().insert(p, e) == final(self).queue()
                    && e.first.0 == SEND_CONTROLLER_ID && index_named(
                    old(self).names(),
                    receiver_name@,
                    e.second.second,
                ) && e.stamp() == message.timestamp_spec() && e.second.first@ == message@,
    {
        // if the receiver exists
        match self.send_controller.get_name_index(receiver_name) {
            Some(index) => {
                let copy = message.clone();
                let ghost entry = ObjectMessageEntry {
                    first: Id(SEND_CONTROLLER_ID),
                    second: MessageEntry { first: copy, second: index },
                };
                let r = self.schedule_message(Id(SEND_CONTROLLER_ID), index, copy);
                proof {
                    if r is Ok {
                        let p = choose|p: int| #[trigger]
                            is_insertion_point(old(self).queue(), entry.stamp(), p) && self.queue()
                                == old(self).queue().insert(p, entry);
                        assert(is_insertion_point(old(self).queue(), message.timestamp_spec(), p)
                            && old(self).queue().insert(p, entry) == self.queue());
                    }
                }
                r
            },
            None => Ok(()),
        }
    }

    /// Schedules a message described by the given string to be sent to named receivers at the
    /// given timestamp. `parse_float` reads the numbers of the string; see
    /// `Message::from_string`.
    ///
    /// Fails with `BufferOverflow`, and changes nothing, where the string
    /// has more than `EXTERNAL_MESSAGE_ATOMS` tokens, and where the name
    /// has receivers and the queue is full.
    pub fn schedule_external_message_string<F: Fn(&str) -> Option<u32>>(
        &mut self,
        receiver_name: &str,
        timestamp: Timestamp,
        init_string: &'pd str,
        parse_float: F,
    ) -> (r: Result<(), Error>)
        requires
            old(self).wf(),
            forall|token: &str| call_requires(parse_float, (token,)),
        ensures
            final(self).wf(),
            final(self).same_but_queue(old(self)),
            r is Err <==> split_pieces(init_string@, ' ', ';').len() > EXTERNAL_MESSAGE_ATOMS || ((
            receiver_name@ == "pd"@ || old(self).names().contains(receiver_name@)) && old(self).queue().len() >= MAX_LIST_SIZE),
            r is Err ==> r->Err_0.kind_spec() == ErrorKind::BufferOverflow,
            r is Err || !(receiver_name@ == "pd"@ || old(self).names().contains(receiver_name@))
                ==> final(self).queue() == old(self).queue(),
            r is Ok && (receiver_name@ == "pd"@ || old(self).names().contains(receiver_name@))
                ==> exists|p: int, e: ObjectMessageEntry<'pd>| #[trigger]
                is_insertion_point(old(self).queue(), timestamp, p) && #[trigger] old(self).queue().insert(p, e) == final(self).queue() && e.first.0 == SEND_CONTROLLER_ID
                    && index_named(old(self).names(), receiver_name@, e.second.second) && e.stamp()
                    == timestamp && reads_tokens(parse_float, init_string@, e.second.first@),
    {
        // do the heavy lifting of string parsing first
        let message = match Message::from_string(
            EXTERNAL_MESSAGE_ATOMS,
            timestamp,
            init_string,
            parse_float,
        ) {
            Ok(message) => message,
            Err(e) => {
                return Err(e);
            },
        };
        let r = self.schedule_external_message(receiver_name, &message);
        proof {
            if r is Ok && (receiver_name@ == "pd"@ || old(self).names().contains(receiver_name@)) {
                let (p, e) = choose|p: int, e: ObjectMessageEntry<'pd>| #[trigger]
                    is_insertion_point(old(self).queue(), message.timestamp_spec(), p)
                        && #[trigger] old(self).queue().insert(p, e) == self.queue() && e.first.0
                        == SEND_CONTROLLER_ID && index_named(
                        old(self).names(),
                        receiver_name@,
                        e.second.second,
                    ) && e.stamp() == message.timestamp_spec() && e.second.first@ == message@;
                assert(is_insertion_point(old(self).queue(), timestamp, p) && old(self).queue().insert(p, e) == self.queue() && reads_tokens(
                    parse_float,
                    init_string@,
                    e.second.first@,
                ));
            }
        }
        r
    }

    /// Register an external receiver; see
    /// `Controller::register_external_receiver`.
    pub fn register_external_receiver(&mut self, receiver_name: &str) -> (r: Result<(), Error>)
        requires
            old(self).wf(),
        ensures
            final(self).wf(),
            final(self).queue() == old(self).queue(),
            final(self).slots() == old(self).slots(),
            final(self).graph_slots() == old(self).graph_slots(),
            final(self).names() == old(self).names(),
            final(self).receivers() == old(self).receivers(),
            final(self).block_start() == old(self).block_start(),
            r is Ok <==> old(self).external_receivers().contains(receiver_name@) || (
            receiver_name.spec_bytes().len() <= MAX_NAME_LENGTH && old(self).external_receivers().len() < crate::message::send::controller::SET_SIZE),
            r is Err ==> r->Err_0.kind_spec() == ErrorKind::BufferOverflow && final(self).external_receivers() == old(self).external_receivers(),
            r is Ok ==> final(self).external_receivers() == if old(self).external_receivers().contains(receiver_name@) {
                old(self).external_receivers()
            } else {
                old(self).external_receivers().push(receiver_name@)
            },
    {
        self.send_controller.register_external_receiver(receiver_name)
    }

    /// Unregister an external receiver; see
    /// `Controller::unregister_external_receiver`.
    pub fn unregister_external_receiver(&mut self, receiver_name: &str)
        requires
            old(self).wf(),
        ensures
            final(self).wf(),
            final(self).queue() == old(self).queue(),
            final(self).slots() == old(self).slots(),
            final(self).graph_slots() == old(self).graph_slots(),
            final(self).names() == old(self).names(),
            final(self).receivers() == old(self).receivers(),
            final(self).block_start() == old(self).block_start(),
            !old(self).external_receivers().contains(receiver_name@) ==> final(self).external_receivers() == old(self).external_receivers(),
            old(self).external_receivers().contains(receiver_name@) ==> exists|i: int| #[trigger]
                is_name_place(old(self).external_receivers(), receiver_name@, i) && final(self).external_receivers() == old(self).external_receivers().update(
                    i,
                    old(self).external_receivers().last(),
                ).drop_last(),
    {
        self.send_controller.unregister_external_receiver(receiver_name)
    }

    /// Set global floating point constant value, given as a
    /// single-precision bit pattern.
    ///
    /// Used with `MessageValue` for keeping track of global variables.
    ///
    /// Fails with `BufferOverflow`, and changes nothing, where the name is
    /// longer than `MAX_NAME_LENGTH` bytes and where the context holds
    /// `VALUE_MAP_SIZE` values already.
    pub fn set_value_for_name(&mut self, name: &str, constant: u32) -> (r: Result<(), Error>)
        ensures
            r is Ok <==> name.spec_bytes().len() <= MAX_NAME_LENGTH && old(self).values_len()
                < VALUE_MAP_SIZE,
            r is Err ==> r->Err_0.kind_spec() == ErrorKind::BufferOverflow && final(self).values()
                == old(self).values() && final(self).values_len() == old(self).values_len(),
            r is Ok ==> final(self).values() == old(self).values().insert(name@, constant),
            r is Ok ==> final(self).values_len() == old(self).values_len() + if old(self).values().contains_key(name@) {
                0nat
            } else {
                1nat
            },
            final(self).queue() == old(self).queue(),
            final(self).slots() == old(self).slots(),
            final(self).graph_slots() == old(self).graph_slots(),
            final(self).names() == old(self).names(),
            final(self).receivers() == old(self).receivers(),
            final(self).external_receivers() == old(self).external_receivers(),
            final(self).block_start() == old(self).block_start(),
            final(self).input_samples() == old(self).input_samples(),
            final(self).output_samples() == old(self).output_samples(),
            final(self).channels() == old(self).channels(),
            final(self).block_size_spec() == old(self).block_size_spec(),
    {
        if name.as_bytes().len() > MAX_NAME_LENGTH {
            return Err(Error::new(ErrorKind::BufferOverflow));
        }
        match values_insert(&mut self.value_map, name, constant) {
            Ok(_) => Ok(()),
            Err(_) => Err(Error::new(ErrorKind::BufferOverflow)),
        }
    }

    /// Get global floating point constant value, as a single-precision bit
    /// pattern.
    ///
    /// Used with `MessageValue` for keeping track of global variables.
    pub fn get_value_for_name(&self, name: &str) -> (r: Option<u32>)
        ensures
            name.spec_bytes().len() <= MAX_NAME_LENGTH ==> r == if self.values().contains_key(
                name@,
            ) {
                Some(self.values()[name@])
            } else {
                None
            },
            name.spec_bytes().len() > MAX_NAME_LENGTH ==> r is None,
    {
        values_get(&self.value_map, name)
    }

    /// What a message to the system receiver `pd` tells the engine
    pub open spec fn system_command(atoms: Seq<Atom>) -> SystemCommand {
        if atoms.len() > 0 && atoms[0] is Symbol && atoms[0]->Symbol_0@ == "obj"@ {
            SystemCommand::Object
        } else if atoms.len() > 1 && atoms[0] is Symbol && atoms[0]->Symbol_0@ == "dsp"@
            && atoms[1] is Float {
            SystemCommand::Dsp(!single_eq(atoms[1]->Float_0, 0))
        } else {
            SystemCommand::Unrecognised
        }
    }

    /// Receives and processes messages sent to the Pd system by sending to
    /// `pd`: says what the message tells the engine. `dsp` with a float
    /// that is not zero switches audio processing on, with zero off.
    pub fn receive_system_message(&self, message: &Message<'pd>) -> (command: SystemCommand)
        ensures
            command == Context::system_command(message@),
    {
        if message.is_symbol_str(0, "obj") {
            SystemCommand::Object
        } else if message.is_symbol_str(0, "dsp") && message.is_float(1) {
            match message.get_float(1) {
                Some(value) => SystemCommand::Dsp(!crate::ieee::eq_single(value, 0)),
                None => SystemCommand::Unrecognised,
            }
        } else {
            SystemCommand::Unrecognised
        }
    }
}

/// A vector of `n` samples, each zero
pub fn zeroes(n: usize) -> (v: Vec<u32>)
    ensures
        v@ == Seq::new(n as nat, |i: int| 0u32),
{
    let mut v: Vec<u32> = Vec::new();
    let mut i: usize = 0;
    while i < n
        invariant
            i <= n,
            v@ == Seq::new(i as nat, |j: int| 0u32),
        decreases n - i,
    {
        v.push(0);
        assert(v@ =~= Seq::new((i + 1) as nat, |j: int| 0u32));
        i += 1;
    }
    v
}

/// A vector of the given samples
pub fn copy_of(samples: &[u32]) -> (v: Vec<u32>)
    ensures
        v@ == samples@,
{
    let n = samples.len();
    let mut v: Vec<u32> = Vec::new();
    let mut i: usize = 0;
    while i < n
        invariant
            n == samples@.len(),
            i <= n,
            v@ == samples@.take(i as int),
        decreases n - i,
    {
        v.push(samples[i]);
        assert(v@ =~= samples@.take(i as int + 1));
        i += 1;
    }
    assert(samples@.take(n as int) =~= samples@);
    v
}

/// The window of a block: of the queued messages, those are delivered in
/// the block from `start` to `next` that are due strictly before `next`.
/// None of them is delivered with a time before `start`, a late one is
/// delivered with the time `start`, and where the block has a length, each
/// is delivered with a time before `next`. A message that is due at `next`
/// or later is none of them: it stays queued for a later block.
pub proof fn lemma_block_window(
    q: Seq<ObjectMessageEntry>,
    start: Timestamp,
    next: Timestamp,
    n: int,
)
    requires
        is_due_count(q, next, n),
    ensures
        forall|i: int|
            0 <= i < n ==> !effective((#[trigger] q[i]).stamp(), start).precedes(start),
        forall|i: int|
            0 <= i < n && (#[trigger] q[i]).stamp().precedes(start) ==> effective(
                q[i].stamp(),
                start,
            ) == start,
        start.precedes(next) ==> forall|i: int|
            0 <= i < n ==> effective((#[trigger] q[i]).stamp(), start).precedes(next),
        forall|i: int|
            0 <= i < q.len() && (next.precedes((#[trigger] q[i]).stamp()) || q[i].stamp().same_moment(
                next,
            )) ==> i >= n && q.skip(n)[i - n] == q[i],
{
    assert forall|i: int| 0 <= i < n implies !effective((#[trigger] q[i]).stamp(), start).precedes(
        start,
    ) by {
        crate::ieee::lemma_double_lt_strict_order(start.0, start.0, start.0);
    }
    assert forall|i: int|
        0 <= i < q.len() && (next.precedes((#[trigger] q[i]).stamp()) || q[i].stamp().same_moment(
            next,
        )) implies i >= n && q.skip(n)[i - n] == q[i] by {
        crate::ieee::lemma_double_lt_strict_order(next.0, q[i].stamp().0, next.0);
        if i < n {
            assert(q[i].stamp().precedes(next));
        }
    }
}

} // verus!
