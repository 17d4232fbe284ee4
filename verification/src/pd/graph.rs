//! Graphs of objects, and the order in which their objects process audio

use crate::allocator::{self, Allocated, Allocator};
use crate::error::{Error, ErrorKind};
use crate::ieee::{lt_single, single_lt};
use crate::message::object::connection::list::{
    is_first_position, lemma_without_object, swap_removed, without_object, CONNECTION_LIST_SIZE,
};
use crate::message::object::connection::Index;
use crate::message::object::{self, delivery_views, Connection, Coordinates, Delivery, Object};
use crate::message::send::controller::{is_name_place, received_by_all};
use crate::pd::{Context, Message};
use vstd::prelude::*;

verus! {

/// Graph identifiers
#[derive(Copy, Clone, Debug, PartialEq, Eq, Structural)]
pub struct Id(pub usize);

impl Default for Id {
    fn default() -> (id: Id)
        ensures
            id == Id(0),
    {
        Id(0)
    }
}

impl From<usize> for Id {
    fn from(n: usize) -> (id: Id)
    {
        Id(n)
    }
}

impl vstd::std_specs::convert::FromSpecImpl<usize> for Id {
    open spec fn obeys_from_spec() -> bool {
        true
    }

    open spec fn from_spec(n: usize) -> Id {
        Id(n)
    }
}

impl From<Id> for usize {
    fn from(id: Id) -> (n: usize)
    {
        id.0
    }
}

impl vstd::std_specs::convert::FromSpecImpl<Id> for usize {
    open spec fn obeys_from_spec() -> bool {
        true
    }

    open spec fn from_spec(id: Id) -> usize {
        id.0
    }
}

impl allocator::Index for Id {
    open spec fn slot(self) -> nat {
        self.0 as nat
    }

    fn from_slot(n: usize) -> (id: Id) {
        Id(n)
    }

    fn into_slot(self) -> (n: usize) {
        self.0
    }

    proof fn lemma_same_slot(a: Id, b: Id) {
    }
}

/// What the process order reads of an object
pub struct Node {
    /// The objects that the incoming connections come from: inlet by
    /// inlet, and within an inlet connection by connection
    pub upstream: Seq<object::Id>,
    /// Does the object process audio?
    pub audio: bool,
    /// Is the object a leaf of the graph?
    pub leaf: bool,
}

/// The objects that the connections of the given lists lead to, list by
/// list and within a list connection by connection
pub open spec fn flattened(lists: Seq<Seq<Connection>>) -> Seq<object::Id>
    decreases lists.len(),
{
    if lists.len() == 0 {
        Seq::empty()
    } else {
        flattened(lists.drop_last()) + lists.last().map_values(|c: Connection| c.first)
    }
}

/// What the process order reads of the given object
pub open spec fn node_of(object: Object) -> Node {
    Node {
        upstream: flattened(object.incoming()),
        audio: object.type_spec().processes_audio(),
        leaf: object.is_leaf(),
    }
}

/// What the process order reads of the objects of an allocator, slot by
/// slot
pub open spec fn topology(slots: Seq<Option<Object>>) -> Seq<Option<Node>> {
    slots.map_values(
        |slot: Option<Object>|
            match slot {
                Some(object) => Some(node_of(object)),
                None => None,
            },
    )
}

/// The slots whose objects have been reached in the current search for a
/// process order
pub open spec fn visited_of(slots: Seq<Option<Object>>) -> Set<int> {
    Set::new(
        |i: int| 0 <= i < slots.len() && slots[i] is Some && slots[i]->Some_0.ordered_spec(),
    )
}

/// Does every object stand in the slot that its id names, and does every
/// incoming connection come from an object?
pub open spec fn well_wired(slots: Seq<Option<Object>>) -> bool {
    &&& allocator::ids_match_slots(slots)
    &&& forall|i: int, j: int, k: int|
        0 <= i < slots.len() && slots[i] is Some && 0 <= j < slots[i]->Some_0.incoming().len() && 0
            <= k < slots[i]->Some_0.incoming()[j].len() ==> is_live(
            slots,
            (#[trigger] slots[i]->Some_0.incoming()[j][k]).first,
        )
}

/// Every object of the flattened lists is the far end of a connection of
/// one of the lists.
pub proof fn lemma_flattened_from_lists(lists: Seq<Seq<Connection>>, n: int)
    requires
        0 <= n < flattened(lists).len(),
    ensures
        exists|j: int, k: int|
            0 <= j < lists.len() && 0 <= k < lists[j].len() && (#[trigger] lists[j][k]).first
                == flattened(lists)[n],
    decreases lists.len(),
{
    if lists.len() > 0 {
        let before = flattened(lists.drop_last());
        if n < before.len() {
            lemma_flattened_from_lists(lists.drop_last(), n);
            let (j, k) = choose|j: int, k: int|
                0 <= j < lists.drop_last().len() && 0 <= k < lists.drop_last()[j].len() && (
                #[trigger] lists.drop_last()[j][k]).first == before[n];
            assert(lists[j][k].first == flattened(lists)[n]);
        } else {
            let k = n - before.len();
            assert(lists[lists.len() - 1][k].first == flattened(lists)[n]);
        }
    }
}

/// Does the id name an object?
pub open spec fn is_live(slots: Seq<Option<Object>>, id: object::Id) -> bool {
    id.0 < slots.len() && slots[id.0 as int] is Some
}

/// The process order upstream of one object, and the objects reached
/// after it. An object that was reached before adds nothing. Any other
/// object is now reached; the orders of the objects that its incoming
/// connections come from follow, one after the other, and then the object
/// itself if it processes audio. `fuel` bounds the length of a chain of
/// connections that is followed; a chain cannot be longer than there are
/// objects.
pub open spec fn order_from(
    topo: Seq<Option<Node>>,
    visited: Set<int>,
    id: object::Id,
    fuel: nat,
) -> (Seq<object::Id>, Set<int>)
    decreases fuel, 0nat,
{
    if fuel == 0 || visited.contains(id.0 as int) || id.0 >= topo.len() || topo[id.0 as int]
        is None {
        (Seq::empty(), visited)
    } else {
        let node = topo[id.0 as int]->Some_0;
        let above = order_from_all(
            topo,
            visited.insert(id.0 as int),
            node.upstream,
            (fuel - 1) as nat,
        );
        (
            if node.audio {
                above.0.push(id)
            } else {
                above.0
            },
            above.1,
        )
    }
}

/// The process orders upstream of the given objects, one after the other,
/// and the objects reached after them
pub open spec fn order_from_all(
    topo: Seq<Option<Node>>,
    visited: Set<int>,
    ids: Seq<object::Id>,
    fuel: nat,
) -> (Seq<object::Id>, Set<int>)
    decreases fuel, ids.len() + 1,
{
    if ids.len() == 0 {
        (Seq::empty(), visited)
    } else {
        let before = order_from_all(topo, visited, ids.drop_last(), fuel);
        let last = order_from(topo, before.1, ids.last(), fuel);
        (before.0 + last.0, last.1)
    }
}

/// Is the object with the given id a leaf?
pub open spec fn is_leaf_at(topo: Seq<Option<Node>>, id: object::Id) -> bool {
    id.0 < topo.len() && topo[id.0 as int] is Some && topo[id.0 as int]->Some_0.leaf
}

/// Those of the given objects that are leaves, in their order
pub open spec fn leaves_of(topo: Seq<Option<Node>>, nodes: Seq<object::Id>) -> Seq<object::Id>
    decreases nodes.len(),
{
    if nodes.len() == 0 {
        Seq::empty()
    } else if is_leaf_at(topo, nodes.last()) {
        leaves_of(topo, nodes.drop_last()).push(nodes.last())
    } else {
        leaves_of(topo, nodes.drop_last())
    }
}

/// The slots of the given objects
pub open spec fn slots_of(nodes: Seq<object::Id>) -> Set<int> {
    Set::new(|i: int| exists|k: int| 0 <= k < nodes.len() && (#[trigger] nodes[k]).0 == i)
}

/// The process order of a graph with the given objects: the orders
/// upstream of its leaves, leaf by leaf, after every object of the graph
/// was marked as not reached.
pub open spec fn local_process_order(
    topo: Seq<Option<Node>>,
    visited: Set<int>,
    nodes: Seq<object::Id>,
) -> (Seq<object::Id>, Set<int>) {
    order_from_all(topo, visited.difference(slots_of(nodes)), leaves_of(topo, nodes), topo.len())
}

/// The objects that the incoming connections of an object come from
pub fn upstream_of(object: &Object) -> (ids: Vec<object::Id>)
    ensures
        ids@ == flattened(object.incoming()),
{
    let n = object.get_num_inlets();
    let mut ids: Vec<object::Id> = Vec::new();
    let mut i: usize = 0;
    while i < n
        invariant
            n == object.incoming().len(),
            i <= n,
            ids@ == flattened(object.incoming().take(i as int)),
        decreases n - i,
    {
        let connections = object.get_incoming_connections(object::connection::Index(i)).to_vec();
        let ghost start = ids@;
        let mut k: usize = 0;
        while k < connections.len()
            invariant
                k <= connections@.len(),
                ids@ == start + connections@.take(k as int).map_values(|c: Connection| c.first),
            decreases connections@.len() - k,
        {
            ids.push(connections[k].object_id());
            assert(connections@.take(k as int + 1).map_values(|c: Connection| c.first)
                =~= connections@.take(k as int).map_values(|c: Connection| c.first).push(
                connections@[k as int].first,
            ));
            k += 1;
        }
        proof {
            assert(connections@.take(connections@.len() as int) =~= connections@);
            let next = object.incoming().take(i as int + 1);
            assert(next.drop_last() =~= object.incoming().take(i as int));
            assert(next.last() == connections@);
        }
        i += 1;
    }
    assert(object.incoming().take(n as int) =~= object.incoming());
    ids
}

/// Append to `order` the process order upstream of the object `id`; see
/// `order_from`. The objects reached are flagged as ordered.
pub fn get_process_order<A: Allocator<Object>>(
    allocator: &mut A,
    id: object::Id,
    fuel: usize,
    order: &mut Vec<object::Id>,
)
    requires
        well_wired(old(allocator).slots()),
        is_live(old(allocator).slots(), id),
    ensures
        well_wired(final(allocator).slots()),
        final(allocator).slots().len() == old(allocator).slots().len(),
        topology(final(allocator).slots()) == topology(old(allocator).slots()),
        final(order)@ == old(order)@ + order_from(
            topology(old(allocator).slots()),
            visited_of(old(allocator).slots()),
            id,
            fuel as nat,
        ).0,
        visited_of(final(allocator).slots()) == order_from(
            topology(old(allocator).slots()),
            visited_of(old(allocator).slots()),
            id,
            fuel as nat,
        ).1,
    decreases fuel,
{
    let ghost topo = topology(allocator.slots());
    let ghost visited = visited_of(allocator.slots());
    if fuel == 0 {
        assert(order@ =~= old(order)@ + Seq::<object::Id>::empty());
        return ;
    }
    let object = id.get_mut(allocator);
    if object.is_ordered() {
        assert(final(allocator).slots() =~= old(allocator).slots());
        assert(order@ =~= old(order)@ + Seq::<object::Id>::empty());
        return ;
    }
    object.set_ordered_flag();
    let upstream = upstream_of(object);
    let audio = object.object_type().does_process_audio();
    proof {
        let before = old(allocator).slots();
        let after = allocator.slots();
        assert(topology(after) =~= topo);
        assert(visited_of(after) =~= visited.insert(id.0 as int));
        assert(upstream@ == topo[id.0 as int]->Some_0.upstream);
        assert forall|i: int, j: int, k: int|
            0 <= i < after.len() && after[i] is Some && 0 <= j < after[i]->Some_0.incoming().len()
                && 0 <= k < after[i]->Some_0.incoming()[j].len() implies is_live(
            after,
            (#[trigger] after[i]->Some_0.incoming()[j][k]).first,
        ) by {
            assert(after[i]->Some_0.incoming() == before[i]->Some_0.incoming());
            assert(is_live(before, before[i]->Some_0.incoming()[j][k].first));
        }
    }
    let ghost start = order@;
    let ghost marked = visited.insert(id.0 as int);
    let mut k: usize = 0;
    while k < upstream.len()
        invariant
            k <= upstream@.len(),
            fuel > 0,
            well_wired(allocator.slots()),
            allocator.slots().len() == old(allocator).slots().len(),
            topology(allocator.slots()) == topo,
            is_live(allocator.slots(), id),
            upstream@ == topo[id.0 as int]->Some_0.upstream,
            order@ == start + order_from_all(
                topo,
                marked,
                upstream@.take(k as int),
                (fuel - 1) as nat,
            ).0,
            visited_of(allocator.slots()) == order_from_all(
                topo,
                marked,
                upstream@.take(k as int),
                (fuel - 1) as nat,
            ).1,
        decreases upstream@.len() - k,
    {
        proof {
            let slots = allocator.slots();
            assert(slots[id.0 as int] is Some);
            assert(topo[id.0 as int] == Some(node_of(slots[id.0 as int]->Some_0)));
            assert(flattened(slots[id.0 as int]->Some_0.incoming())[k as int] == upstream@[k as int]);
            lemma_flattened_from_lists(slots[id.0 as int]->Some_0.incoming(), k as int);
            assert(is_live(slots, upstream@[k as int]));
            let next = upstream@.take(k as int + 1);
            assert(next.drop_last() =~= upstream@.take(k as int));
            assert(next.last() == upstream@[k as int]);
        }
        let ghost so_far = order@;
        get_process_order(allocator, upstream[k], fuel - 1, order);
        proof {
            let before = order_from_all(topo, marked, upstream@.take(k as int), (fuel - 1) as nat);
            let last = order_from(topo, before.1, upstream@[k as int], (fuel - 1) as nat);
            assert(order@ =~= start + (before.0 + last.0));
        }
        k += 1;
    }
    proof {
        assert(upstream@.take(upstream@.len() as int) =~= upstream@);
    }
    if audio {
        order.push(id);
    }
    proof {
        let above = order_from_all(topo, marked, upstream@, (fuel - 1) as nat);
        if audio {
            assert(order@ =~= old(order)@ + above.0.push(id));
        } else {
            assert(order@ =~= old(order)@ + above.0);
        }
    }
}

/// Is `p` the place at which an inlet or outlet at horizontal position `x`
/// joins the list of those of a graph: before the first that stands
/// strictly further right, or at the end where none does?
pub open spec fn is_let_place(slots: Seq<Option<Object>>, lets: Seq<object::Id>, x: u32, p: int) -> bool {
    &&& 0 <= p <= lets.len()
    &&& forall|j: int|
        0 <= j < p ==> !single_lt(
            x,
            slots[(#[trigger] lets[j]).0 as int]->Some_0.coordinates_spec().x,
        )
    &&& p < lets.len() ==> single_lt(x, slots[lets[p].0 as int]->Some_0.coordinates_spec().x)
}

/// Does every one of the ids name an object?
pub open spec fn all_ids_live(slots: Seq<Option<Object>>, ids: Seq<object::Id>) -> bool {
    forall|k: int| 0 <= k < ids.len() ==> is_live(slots, #[trigger] ids[k])
}

/// What became of an attempt to connect two objects
#[derive(Copy, Clone, Debug, PartialEq, Eq, Structural)]
pub enum Connected {
    /// The connection was made.
    Made,
    /// One of the objects has no such inlet or outlet; nothing was done.
    Mismatched,
}

/// One step of the processing of a block: an object, and the samples of
/// the block that it is to process.
#[derive(Copy, Clone, Debug, PartialEq, Eq, Structural)]
pub struct DspStep {
    /// The object that processes
    pub object_id: object::Id,
    /// The first sample to process
    pub from_index: usize,
    /// The sample behind the last to process
    pub to_index: usize,
}

/// A graph: the objects of one dataflow scope, those of them that are the
/// inlets and outlets of the graph itself, and the order in which the
/// objects process audio.
pub struct Graph {
    /// Identifier for this graph
    id: Id,
    /// All objects of this graph, in the order of their creation
    node_list: Vec<object::Id>,
    /// The inlets of this graph, left to right
    inlet_list: Vec<object::Id>,
    /// The outlets of this graph, left to right
    outlet_list: Vec<object::Id>,
    /// The objects of this graph that process audio, in process order
    dsp_node_list: Vec<object::Id>,
}

impl Allocated for Graph {
    type Id = Id;

    closed spec fn id_spec(&self) -> Id {
        self.id
    }

    fn id(&self) -> (id: Id) {
        self.id
    }
}

impl Graph {
    /// All objects of this graph, in the order of their creation
    pub closed spec fn nodes(&self) -> Seq<object::Id> {
        self.node_list@
    }

    /// The inlets of this graph, left to right
    pub closed spec fn inlets(&self) -> Seq<object::Id> {
        self.inlet_list@
    }

    /// The outlets of this graph, left to right
    pub closed spec fn outlets(&self) -> Seq<object::Id> {
        self.outlet_list@
    }

    /// The objects of this graph that process audio, in process order
    pub closed spec fn process_order(&self) -> Seq<object::Id> {
        self.dsp_node_list@
    }

    /// After an object was added, every inlet and every outlet of the
    /// graph is that object or was an inlet or outlet before.
    pub proof fn lemma_lets_from(&self, was: &Graph, object_id: object::Id, k: int)
        requires
            (exists|p: int| 0 <= p <= was.inlets().len() && self.inlets() == was.inlets().insert(
                p,
                object_id,
            )) || self.inlets() == was.inlets(),
            (exists|p: int| 0 <= p <= was.outlets().len() && self.outlets()
                == was.outlets().insert(p, object_id)) || self.outlets() == was.outlets(),
        ensures
            0 <= k < self.inlets().len() && self.inlets()[k] != object_id ==> exists|w: int|
                0 <= w < was.inlets().len() && was.inlets()[w] == self.inlets()[k],
            0 <= k < self.outlets().len() && self.outlets()[k] != object_id ==> exists|w: int|
                0 <= w < was.outlets().len() && was.outlets()[w] == self.outlets()[k],
    {
        if 0 <= k < self.inlets().len() && self.inlets()[k] != object_id {
            if self.inlets() == was.inlets() {
                assert(was.inlets()[k] == self.inlets()[k]);
            } else {
                let p = choose|p: int|
                    0 <= p <= was.inlets().len() && self.inlets() == was.inlets().insert(
                        p,
                        object_id,
                    );
                if k < p {
                    assert(was.inlets()[k] == self.inlets()[k]);
                } else {
                    assert(was.inlets()[k - 1] == self.inlets()[k]);
                }
            }
        }
        if 0 <= k < self.outlets().len() && self.outlets()[k] != object_id {
            if self.outlets() == was.outlets() {
                assert(was.outlets()[k] == self.outlets()[k]);
            } else {
                let p = choose|p: int|
                    0 <= p <= was.outlets().len() && self.outlets() == was.outlets().insert(
                        p,
                        object_id,
                    );
                if k < p {
                    assert(was.outlets()[k] == self.outlets()[k]);
                } else {
                    assert(was.outlets()[k - 1] == self.outlets()[k]);
                }
            }
        }
    }

    /// Create a graph without objects
    pub fn new(id: Id) -> (graph: Graph)
        ensures
            graph.id_spec() == id,
            graph.nodes() == Seq::<object::Id>::empty(),
            graph.inlets() == Seq::<object::Id>::empty(),
            graph.outlets() == Seq::<object::Id>::empty(),
            graph.process_order() == Seq::<object::Id>::empty(),
    {
        Graph {
            id,
            node_list: Vec::new(),
            inlet_list: Vec::new(),
            outlet_list: Vec::new(),
            dsp_node_list: Vec::new(),
        }
    }

    /// The place at which an inlet or outlet at horizontal position `x`
    /// joins the given list
    fn find_let_place<A: Allocator<Object>>(allocator: &A, lets: &Vec<object::Id>, x: u32) -> (p:
        usize)
        requires
            all_ids_live(allocator.slots(), lets@),
        ensures
            is_let_place(allocator.slots(), lets@, x, p as int),
    {
        let mut i: usize = 0;
        while i < lets.len()
            invariant
                i <= lets@.len(),
                all_ids_live(allocator.slots(), lets@),
                forall|j: int|
                    0 <= j < i ==> !single_lt(
                        x,
                        allocator.slots()[(#[trigger] lets@[j]).0 as int]->Some_0.coordinates_spec().x,
                    ),
            decreases lets@.len() - i,
        {
            assert(is_live(allocator.slots(), lets@[i as int]));
            let position = lets[i].get(allocator).get_coordinates().x;
            if lt_single(x, position) {
                return i;
            }
            i += 1;
        }
        lets.len()
    }

    /// Add the object to this graph at the given position on the canvas.
    /// It joins the objects of the graph as the last; an inlet or outlet
    /// also joins the inlets or outlets of the graph, which stand left to
    /// right: before the first that stands strictly further right.
    ///
    /// The id must name an object, and so must the inlets and outlets
    /// that the graph has.
    pub fn add_object<A: Allocator<Object>>(
        &mut self,
        allocator: &mut A,
        canvas_x: u32,
        canvas_y: u32,
        object_id: object::Id,
    )
        requires
            is_live(old(allocator).slots(), object_id),
            all_ids_live(old(allocator).slots(), old(self).inlets()),
            all_ids_live(old(allocator).slots(), old(self).outlets()),
        ensures
            final(self).id_spec() == old(self).id_spec(),
            final(self).process_order() == old(self).process_order(),
            final(self).nodes() == old(self).nodes().push(object_id),
            final(allocator).slots().len() == old(allocator).slots().len(),
            forall|i: int|
                0 <= i < old(allocator).slots().len() && i != object_id.0 ==> final(allocator).slots()[i] == old(allocator).slots()[i],
            is_live(final(allocator).slots(), object_id),
            ({
                let before = old(allocator).slots()[object_id.0 as int]->Some_0;
                let after = final(allocator).slots()[object_id.0 as int]->Some_0;
                &&& after.coordinates_spec() == (Coordinates { x: canvas_x, y: canvas_y })
                &&& after.id_spec() == before.id_spec()
                &&& after.type_spec() == before.type_spec()
                &&& after.ordered_spec() == before.ordered_spec()
                &&& after.incoming() == before.incoming()
                &&& after.outgoing() == before.outgoing()
                &&& if before.type_spec().is_inlet() {
                    &&& final(self).outlets() == old(self).outlets()
                    &&& exists|p: int| #[trigger]
                        is_let_place(old(allocator).slots(), old(self).inlets(), canvas_x, p)
                            && final(self).inlets() == old(self).inlets().insert(p, object_id)
                } else if before.type_spec().is_outlet() {
                    &&& final(self).inlets() == old(self).inlets()
                    &&& exists|p: int| #[trigger]
                        is_let_place(old(allocator).slots(), old(self).outlets(), canvas_x, p)
                            && final(self).outlets() == old(self).outlets().insert(p, object_id)
                } else {
                    &&& final(self).inlets() == old(self).inlets()
                    &&& final(self).outlets() == old(self).outlets()
                }
            }),
    {
        // all nodes are added to the node list regardless
        self.node_list.push(object_id);
        let object_type = object_id.get(allocator).object_type();
        if object_type.is_graph_inlet() {
            let p = Graph::find_let_place(allocator, &self.inlet_list, canvas_x);
            self.inlet_list.insert(p, object_id);
        } else if object_type.is_graph_outlet() {
            let p = Graph::find_let_place(allocator, &self.outlet_list, canvas_x);
            self.outlet_list.insert(p, object_id);
        }
        let object = object_id.get_mut(allocator);
        object.set_coordinates(Coordinates::new(canvas_x, canvas_y));
    }

    /// Connect an outlet of one object to an inlet of another: the second
    /// object gets an incoming connection and the first the outgoing one.
    /// Where the first has no such outlet or the second no such inlet,
    /// nothing is done and `Mismatched` is returned.
    ///
    /// Both ids must name objects. Fails with `BufferOverflow`, and does
    /// nothing, when the inlet or the outlet can hold no more
    /// connections.
    pub fn add_connection<A: Allocator<Object>>(
        allocator: &mut A,
        from_object: object::Id,
        outlet_index: Index,
        to_object: object::Id,
        inlet_index: Index,
    ) -> (r: Result<Connected, Error>)
        requires
            well_wired(old(allocator).slots()),
            is_live(old(allocator).slots(), from_object),
            is_live(old(allocator).slots(), to_object),
        ensures
            well_wired(final(allocator).slots()),
            final(allocator).slots().len() == old(allocator).slots().len(),
            forall|i: int|
                0 <= i < old(allocator).slots().len() && i != from_object.0 && i != to_object.0
                    ==> final(allocator).slots()[i] == old(allocator).slots()[i],
            is_live(final(allocator).slots(), from_object),
            is_live(final(allocator).slots(), to_object),
            ({
                let from_before = old(allocator).slots()[from_object.0 as int]->Some_0;
                let to_before = old(allocator).slots()[to_object.0 as int]->Some_0;
                let fits = outlet_index.0 < from_before.outgoing().len() && inlet_index.0
                    < to_before.incoming().len();
                let room = fits && from_before.outgoing()[outlet_index.0 as int].len()
                    < CONNECTION_LIST_SIZE && to_before.incoming()[inlet_index.0 as int].len()
                    < CONNECTION_LIST_SIZE;
                &&& r is Err <==> fits && !room
                &&& r is Err ==> r->Err_0.kind_spec() == ErrorKind::BufferOverflow
                &&& r == Ok::<Connected, Error>(Connected::Mismatched) <==> !fits
                &&& !room ==> final(allocator).slots() == old(allocator).slots()
                &&& room ==> connected(
                    old(allocator).slots(),
                    final(allocator).slots(),
                    from_object,
                    outlet_index,
                    to_object,
                    inlet_index,
                )
            }),
    {
        // check to make sure that this connection can even work. Otherwise don't bother.
        let from = from_object.get(allocator);
        if outlet_index.0 >= from.get_num_outlets() {
            return Ok(Connected::Mismatched);
        }
        let from_room = from.get_outgoing_connections(outlet_index).len() < CONNECTION_LIST_SIZE;
        let to = to_object.get(allocator);
        if inlet_index.0 >= to.get_num_inlets() {
            return Ok(Connected::Mismatched);
        }
        let to_room = to.get_incoming_connections(inlet_index).len() < CONNECTION_LIST_SIZE;
        if !from_room || !to_room {
            return Err(Error::new(ErrorKind::BufferOverflow));
        }
        let to = to_object.get_mut(allocator);
        let _ = to.add_connection_from_object_to_inlet(from_object, outlet_index, inlet_index);
        let ghost middle = allocator.slots();
        let from = from_object.get_mut(allocator);
        let _ = from.add_connection_to_object_from_outlet(to_object, inlet_index, outlet_index);
        proof {
            let before = old(allocator).slots();
            let after = allocator.slots();
            assert forall|i: int, j: int, k: int|
                0 <= i < after.len() && after[i] is Some && 0 <= j
                    < after[i]->Some_0.incoming().len() && 0 <= k
                    < after[i]->Some_0.incoming()[j].len() implies is_live(
                after,
                (#[trigger] after[i]->Some_0.incoming()[j][k]).first,
            ) by {
                if i == to_object.0 && j == inlet_index.0 {
                    let list = before[i]->Some_0.incoming()[j];
                    if k < list.len() {
                        assert(is_live(before, before[i]->Some_0.incoming()[j][k].first));
                    }
                } else {
                    assert(is_live(before, before[i]->Some_0.incoming()[j][k].first));
                }
            }
        }
        Ok(Connected::Made)
    }

    /// Take away the connection from an outlet of one object to an inlet
    /// of another, on both sides: the second object loses the incoming
    /// connection and the first the outgoing one. In each list the first
    /// occurrence leaves, and the last connection takes its place.
    ///
    /// Both ids must name objects which have that outlet and that inlet,
    /// and the connection must be there on both sides.
    pub fn remove_connection<A: Allocator<Object>>(
        allocator: &mut A,
        from_object: object::Id,
        outlet_index: Index,
        to_object: object::Id,
        inlet_index: Index,
    )
        requires
            well_wired(old(allocator).slots()),
            is_wired(old(allocator).slots(), from_object, outlet_index, to_object, inlet_index),
        ensures
            well_wired(final(allocator).slots()),
            final(allocator).slots().len() == old(allocator).slots().len(),
            forall|i: int|
                0 <= i < old(allocator).slots().len() && i != from_object.0 && i != to_object.0
                    ==> final(allocator).slots()[i] == old(allocator).slots()[i],
            forall|i: int|
                0 <= i < old(allocator).slots().len() ==> (old(allocator).slots()[i] is Some) == (
                #[trigger] final(allocator).slots()[i] is Some),
            disconnected(
                old(allocator).slots(),
                final(allocator).slots(),
                from_object,
                outlet_index,
                to_object,
                inlet_index,
            ),
    {
        let to = to_object.get_mut(allocator);
        let _ = to.remove_connection_from_object_to_inlet(from_object, outlet_index, inlet_index);
        let ghost middle = allocator.slots();
        let from = from_object.get_mut(allocator);
        let _ = from.remove_connection_to_object_from_outlet(to_object, inlet_index, outlet_index);
        proof {
            let before = old(allocator).slots();
            let after = allocator.slots();
            let to_before = before[to_object.0 as int]->Some_0;
            let to_middle = middle[to_object.0 as int]->Some_0;
            let from_middle = middle[from_object.0 as int]->Some_0;
            let from_after = after[from_object.0 as int]->Some_0;
            let incoming = Connection { first: from_object, second: outlet_index };
            let outgoing = Connection { first: to_object, second: inlet_index };
            let p1 = choose|p: int| #[trigger]
                is_first_position(to_before.incoming()[inlet_index.0 as int], incoming, p)
                    && to_middle.incoming() == to_before.incoming().update(
                    inlet_index.0 as int,
                    swap_removed(to_before.incoming()[inlet_index.0 as int], p),
                );
            let p2 = choose|p: int| #[trigger]
                is_first_position(from_middle.outgoing()[outlet_index.0 as int], outgoing, p)
                    && from_after.outgoing() == from_middle.outgoing().update(
                    outlet_index.0 as int,
                    swap_removed(from_middle.outgoing()[outlet_index.0 as int], p),
                );
            assert(is_first_position(to_before.incoming()[inlet_index.0 as int], incoming, p1));
            assert(is_first_position(from_middle.outgoing()[outlet_index.0 as int], outgoing, p2));
            assert(disconnected(
                before,
                after,
                from_object,
                outlet_index,
                to_object,
                inlet_index,
            ));
            assert forall|i: int, j: int, k: int|
                0 <= i < after.len() && after[i] is Some && 0 <= j
                    < after[i]->Some_0.incoming().len() && 0 <= k
                    < after[i]->Some_0.incoming()[j].len() implies is_live(
                after,
                (#[trigger] after[i]->Some_0.incoming()[j][k]).first,
            ) by {
                if i == to_object.0 && j == inlet_index.0 {
                    let list = before[i]->Some_0.incoming()[j];
                    let p = choose|p: int| #[trigger]
                        is_first_position(
                            list,
                            Connection { first: from_object, second: outlet_index },
                            p,
                        ) && after[i]->Some_0.incoming()[j] == swap_removed(list, p);
                    if k == p {
                        assert(is_live(before, before[i]->Some_0.incoming()[j][list.len() - 1].first));
                    } else {
                        assert(is_live(before, before[i]->Some_0.incoming()[j][k].first));
                    }
                } else {
                    assert(is_live(before, before[i]->Some_0.incoming()[j][k].first));
                }
            }
        }
    }

    /// Remove the object from this graph: every connection to and from it
    /// is taken away, at the object and at every other object, and the
    /// object leaves the objects, the inlets, the outlets and the process
    /// order of the graph. The object itself stays in its slot, without
    /// connections.
    pub fn remove_object<A: Allocator<Object>>(&mut self, allocator: &mut A, object_id: object::Id)
        requires
            well_wired(old(allocator).slots()),
        ensures
            well_wired(final(allocator).slots()),
            unwired(old(allocator).slots(), final(allocator).slots(), object_id),
            final(self).id_spec() == old(self).id_spec(),
            final(self).nodes() == without_id(old(self).nodes(), object_id),
            final(self).inlets() == without_id(old(self).inlets(), object_id),
            final(self).outlets() == without_id(old(self).outlets(), object_id),
            final(self).process_order() == without_id(old(self).process_order(), object_id),
    {
        let n = allocator.capacity();
        let mut i: usize = 0;
        while i < n
            invariant
                n == old(allocator).slots().len(),
                allocator.slots().len() == n,
                i <= n,
                forall|k: int|
                    0 <= k < i ==> unwired_at(
                        old(allocator).slots()[k],
                        #[trigger] allocator.slots()[k],
                        k,
                        object_id,
                    ),
                forall|k: int| i <= k < n ==> allocator.slots()[k] == old(allocator).slots()[k],
            decreases n - i,
        {
            let ghost before = allocator.slots();
            match allocator.get_mut(object::Id(i)) {
                Some(object) => {
                    if i == object_id.0 {
                        object.clear_connections();
                    } else {
                        object.remove_connections_of(object_id);
                    }
                },
                None => {},
            }
            proof {
                assert(allocator::Index::slot(object::Id(i)) == i);
                let after = allocator.slots();
                assert forall|k: int| 0 <= k < i + 1 implies unwired_at(
                    old(allocator).slots()[k],
                    #[trigger] after[k],
                    k,
                    object_id,
                ) by {
                    if k < i {
                        assert(after[k] == before[k]);
                    }
                }
            }
            i += 1;
        }
        proof {
            let before = old(allocator).slots();
            let after = allocator.slots();
            assert forall|i: int|
                0 <= i < after.len() && (#[trigger] after[i]) is Some
                    implies allocator::Index::slot(after[i]->Some_0.id_spec()) == i by {
                assert(unwired_at(before[i], after[i], i, object_id));
            }
            assert forall|i: int, j: int, k: int|
                0 <= i < after.len() && after[i] is Some && 0 <= j
                    < after[i]->Some_0.incoming().len() && 0 <= k
                    < after[i]->Some_0.incoming()[j].len() implies is_live(
                after,
                (#[trigger] after[i]->Some_0.incoming()[j][k]).first,
            ) by {
                assert(unwired_at(before[i], after[i], i, object_id));
                if i != object_id.0 {
                    let list = before[i]->Some_0.incoming()[j];
                    lemma_without_object(list, object_id);
                    let c = without_object(list, object_id)[k];
                    let w = choose|w: int| 0 <= w < list.len() && list[w] == c;
                    assert(is_live(before, before[i]->Some_0.incoming()[j][w].first));
                    assert(unwired_at(before[c.first.0 as int], after[c.first.0 as int], c.first.0 as int, object_id));
                }
            }
        }
        self.node_list = without(&self.node_list, object_id);
        self.inlet_list = without(&self.inlet_list, object_id);
        self.outlet_list = without(&self.outlet_list, object_id);
        self.dsp_node_list = without(&self.dsp_node_list, object_id);
    }

    /// Connect two objects of this graph, each named by its place among
    /// the objects of the graph in the order of their creation; see
    /// `add_connection`.
    ///
    /// The graph must have objects at both places, and they must be
    /// there.
    pub fn add_connection_by_index<A: Allocator<Object>>(
        &self,
        allocator: &mut A,
        from_object_index: usize,
        outlet_index: Index,
        to_object_index: usize,
        inlet_index: Index,
    ) -> (r: Result<Connected, Error>)
        requires
            well_wired(old(allocator).slots()),
            from_object_index < self.nodes().len(),
            to_object_index < self.nodes().len(),
            is_live(old(allocator).slots(), self.nodes()[from_object_index as int]),
            is_live(old(allocator).slots(), self.nodes()[to_object_index as int]),
        ensures
            well_wired(final(allocator).slots()),
            final(allocator).slots().len() == old(allocator).slots().len(),
            ({
                let from_object = self.nodes()[from_object_index as int];
                let to_object = self.nodes()[to_object_index as int];
                let from_before = old(allocator).slots()[from_object.0 as int]->Some_0;
                let to_before = old(allocator).slots()[to_object.0 as int]->Some_0;
                let fits = outlet_index.0 < from_before.outgoing().len() && inlet_index.0
                    < to_before.incoming().len();
                let room = fits && from_before.outgoing()[outlet_index.0 as int].len()
                    < CONNECTION_LIST_SIZE && to_before.incoming()[inlet_index.0 as int].len()
                    < CONNECTION_LIST_SIZE;
                &&& r is Err <==> fits && !room
                &&& r is Err ==> r->Err_0.kind_spec() == ErrorKind::BufferOverflow
                &&& r == Ok::<Connected, Error>(Connected::Mismatched) <==> !fits
                &&& !room ==> final(allocator).slots() == old(allocator).slots()
                &&& room ==> connected(
                    old(allocator).slots(),
                    final(allocator).slots(),
                    from_object,
                    outlet_index,
                    to_object,
                    inlet_index,
                )
            }),
    {
        let from_object = self.node_list[from_object_index];
        let to_object = self.node_list[to_object_index];
        Graph::add_connection(allocator, from_object, outlet_index, to_object, inlet_index)
    }

    /// Recompute the order in which the objects of this graph process
    /// audio: every object of the graph is marked as not reached, and the
    /// orders upstream of the leaves among them follow one another, leaf
    /// by leaf.
    ///
    /// The objects of the graph must be there.
    pub fn compute_deep_local_process_order<A: Allocator<Object>>(&mut self, allocator: &mut A)
        requires
            well_wired(old(allocator).slots()),
            all_ids_live(old(allocator).slots(), old(self).nodes()),
        ensures
            final(self).id_spec() == old(self).id_spec(),
            final(self).nodes() == old(self).nodes(),
            final(self).inlets() == old(self).inlets(),
            final(self).outlets() == old(self).outlets(),
            well_wired(final(allocator).slots()),
            final(allocator).slots().len() == old(allocator).slots().len(),
            topology(final(allocator).slots()) == topology(old(allocator).slots()),
            final(self).process_order() == local_process_order(
                topology(old(allocator).slots()),
                visited_of(old(allocator).slots()),
                old(self).nodes(),
            ).0,
            visited_of(final(allocator).slots()) == local_process_order(
                topology(old(allocator).slots()),
                visited_of(old(allocator).slots()),
                old(self).nodes(),
            ).1,
    {
        let ghost topo = topology(allocator.slots());
        let ghost visited = visited_of(allocator.slots());
        let ghost nodes = self.nodes();
        // generate the leafnode list
        let mut leaves: Vec<object::Id> = Vec::new();
        let mut k: usize = 0;
        while k < self.node_list.len()
            invariant
                k <= self.node_list@.len(),
                self.node_list@ == nodes,
                well_wired(allocator.slots()),
                allocator.slots().len() == old(allocator).slots().len(),
                topology(allocator.slots()) == topo,
                all_ids_live(allocator.slots(), nodes),
                visited_of(allocator.slots()) == visited.difference(
                    slots_of(nodes.take(k as int)),
                ),
                leaves@ == leaves_of(topo, nodes.take(k as int)),
            decreases self.node_list@.len() - k,
        {
            let id = self.node_list[k];
            assert(is_live(allocator.slots(), nodes[k as int]));
            let ghost before = allocator.slots();
            let object = id.get_mut(allocator);
            // reset the ordered flag on all local objects
            object.reset_ordered_flag();
            let leaf = object.is_leaf_node();
            if leaf {
                leaves.push(id);
            }
            proof {
                let after = allocator.slots();
                assert(topology(after) =~= topo);
                let next = nodes.take(k as int + 1);
                assert(next.drop_last() =~= nodes.take(k as int));
                assert(next.last() == id);
                assert(leaf == is_leaf_at(topo, id));
                assert(slots_of(next) =~= slots_of(nodes.take(k as int)).insert(id.0 as int)) by {
                    assert forall|i: int| slots_of(next).contains(i) implies slots_of(
                        nodes.take(k as int),
                    ).insert(id.0 as int).contains(i) by {
                        let w = choose|w: int| 0 <= w < next.len() && (#[trigger] next[w]).0 == i;
                        if w < k {
                            assert(nodes.take(k as int)[w].0 == i);
                        }
                    }
                    assert forall|i: int|
                        slots_of(nodes.take(k as int)).insert(id.0 as int).contains(
                            i,
                        ) implies slots_of(next).contains(i) by {
                        if i == id.0 {
                            assert(next[k as int].0 == i);
                        } else {
                            let w = choose|w: int|
                                0 <= w < nodes.take(k as int).len() && (#[trigger] nodes.take(
                                    k as int,
                                )[w]).0 == i;
                            assert(next[w].0 == i);
                        }
                    }
                }
                assert(visited_of(after) =~= visited_of(before).remove(id.0 as int));
                assert(visited.difference(slots_of(nodes.take(k as int)).insert(id.0 as int))
                    =~= visited.difference(slots_of(nodes.take(k as int))).remove(id.0 as int));
                assert(visited_of(after) == visited.difference(slots_of(next)));
                assert forall|i: int, j: int, n: int|
                    0 <= i < after.len() && after[i] is Some && 0 <= j
                        < after[i]->Some_0.incoming().len() && 0 <= n
                        < after[i]->Some_0.incoming()[j].len() implies is_live(
                    after,
                    (#[trigger] after[i]->Some_0.incoming()[j][n]).first,
                ) by {
                    assert(after[i]->Some_0.incoming() == before[i]->Some_0.incoming());
                    assert(is_live(before, before[i]->Some_0.incoming()[j][n].first));
                }
                assert forall|w: int| 0 <= w < nodes.len() implies is_live(
                    after,
                    #[trigger] nodes[w],
                ) by {
                    assert(is_live(before, nodes[w]));
                }
            }
            k += 1;
        }
        proof {
            assert(nodes.take(nodes.len() as int) =~= nodes);
        }
        let ghost reset = visited.difference(slots_of(nodes));
        // for all leaf nodes, order the tree
        let fuel = allocator.capacity();
        let mut order: Vec<object::Id> = Vec::new();
        let mut n: usize = 0;
        proof {
            lemma_leaves_are_leaves(topo, nodes);
        }
        while n < leaves.len()
            invariant
                n <= leaves@.len(),
                leaves@ == leaves_of(topo, nodes),
                fuel == topo.len(),
                well_wired(allocator.slots()),
                allocator.slots().len() == old(allocator).slots().len(),
                topology(allocator.slots()) == topo,
                forall|w: int| 0 <= w < leaves@.len() ==> is_leaf_at(topo, #[trigger] leaves@[w]),
                order@ == order_from_all(topo, reset, leaves@.take(n as int), fuel as nat).0,
                visited_of(allocator.slots()) == order_from_all(
                    topo,
                    reset,
                    leaves@.take(n as int),
                    fuel as nat,
                ).1,
            decreases leaves@.len() - n,
        {
            proof {
                assert(is_leaf_at(topo, leaves@[n as int]));
                assert(allocator.slots()[leaves@[n as int].0 as int] is Some);
                let next = leaves@.take(n as int + 1);
                assert(next.drop_last() =~= leaves@.take(n as int));
                assert(next.last() == leaves@[n as int]);
            }
            get_process_order(allocator, leaves[n], fuel, &mut order);
            n += 1;
        }
        proof {
            assert(leaves@.take(leaves@.len() as int) =~= leaves@);
        }
        self.dsp_node_list = order;
    }

    /// The incoming connections of this graph at its inlet with the given
    /// index: those of the inlet object that stands at that place, at its
    /// own inlet. A graph without such an inlet has none.
    ///
    /// The inlets of the graph must be there.
    pub fn get_incoming_connections<A: Allocator<Object>>(
        &self,
        allocator: &A,
        inlet_index: Index,
    ) -> (connections: Vec<Connection>)
        requires
            all_ids_live(allocator.slots(), self.inlets()),
        ensures
            connections@ == let_connections(allocator.slots(), self.inlets(), inlet_index, true),
    {
        if inlet_index.0 >= self.inlet_list.len() {
            return Vec::new();
        }
        assert(is_live(allocator.slots(), self.inlets()[inlet_index.0 as int]));
        let inlet_object = self.inlet_list[inlet_index.0].get(allocator);
        if inlet_object.object_type().is_graph_inlet() && inlet_object.get_num_inlets() > 0 {
            inlet_object.get_incoming_connections(Index(0)).to_vec()
        } else {
            Vec::new()
        }
    }

    /// The outgoing connections of this graph at its outlet with the
    /// given index: those of the outlet object that stands at that place,
    /// at its own outlet. A graph without such an outlet has none.
    ///
    /// The outlets of the graph must be there.
    pub fn get_outgoing_connections<A: Allocator<Object>>(
        &self,
        allocator: &A,
        outlet_index: Index,
    ) -> (connections: Vec<Connection>)
        requires
            all_ids_live(allocator.slots(), self.outlets()),
        ensures
            connections@ == let_connections(allocator.slots(), self.outlets(), outlet_index, false),
    {
        if outlet_index.0 >= self.outlet_list.len() {
            return Vec::new();
        }
        assert(is_live(allocator.slots(), self.outlets()[outlet_index.0 as int]));
        let outlet_object = self.outlet_list[outlet_index.0].get(allocator);
        if outlet_object.object_type().is_graph_outlet() && outlet_object.get_num_outlets() > 0 {
            outlet_object.get_outgoing_connections(Index(0)).to_vec()
        } else {
            Vec::new()
        }
    }

    /// Sends the given message to all `receive` objects with the given
    /// `name`; see `Context::send_message_to_named_receivers`.
    pub fn send_message_to_named_receivers<'pd>(
        &self,
        context: &Context<'pd>,
        name: &str,
        message: &Message<'pd>,
    ) -> (deliveries: Vec<Delivery<'pd>>)
        requires
            context.wf(),
        ensures
            name@ == "pd"@ || !context.names().contains(name@) ==> deliveries@.len() == 0,
            name@ != "pd"@ && context.names().contains(name@) ==> exists|i: int| #[trigger]
                is_name_place(context.names(), name@, i) && delivery_views(deliveries@)
                    == received_by_all(
                    context.slots(),
                    context.receivers()[i],
                    message.timestamp_spec(),
                    message@,
                ),
    {
        context.send_message_to_named_receivers(name, message)
    }

    /// What is to be done when this graph processes the samples from
    /// `from_index` up to `to_index` of a block: every object of the
    /// process order processes those samples, in that order.
    pub fn process_function(&self, from_index: usize, to_index: usize) -> (steps: Vec<DspStep>)
        ensures
            steps@ == self.process_order().map_values(
                |id: object::Id| DspStep { object_id: id, from_index, to_index },
            ),
    {
        let n = self.dsp_node_list.len();
        let mut steps: Vec<DspStep> = Vec::new();
        let mut i: usize = 0;
        while i < n
            invariant
                i <= n,
                n == self.dsp_node_list@.len(),
                steps@ == self.dsp_node_list@.take(i as int).map_values(
                    |id: object::Id| DspStep { object_id: id, from_index, to_index },
                ),
            decreases n - i,
        {
            steps.push(DspStep { object_id: self.dsp_node_list[i], from_index, to_index });
            assert(self.dsp_node_list@.take(i as int + 1).map_values(
                |id: object::Id| DspStep { object_id: id, from_index, to_index },
            ) =~= self.dsp_node_list@.take(i as int).map_values(
                |id: object::Id| DspStep { object_id: id, from_index, to_index },
            ).push(DspStep { object_id: self.dsp_node_list@[i as int], from_index, to_index }));
            i += 1;
        }
        assert(self.dsp_node_list@.take(n as int) =~= self.dsp_node_list@);
        steps
    }

    /// The objects of this graph, in the order of their creation
    pub fn get_node_list(&self) -> (ids: &Vec<object::Id>)
        ensures
            ids@ == self.nodes(),
    {
        &self.node_list
    }

    /// The inlets of this graph, left to right
    pub fn get_inlet_list(&self) -> (ids: &Vec<object::Id>)
        ensures
            ids@ == self.inlets(),
    {
        &self.inlet_list
    }

    /// The outlets of this graph, left to right
    pub fn get_outlet_list(&self) -> (ids: &Vec<object::Id>)
        ensures
            ids@ == self.outlets(),
    {
        &self.outlet_list
    }

    /// The objects that process audio, in process order
    pub fn get_process_order(&self) -> (ids: &Vec<object::Id>)
        ensures
            ids@ == self.process_order(),
    {
        &self.dsp_node_list
    }

    /// Get the number of inlets of this graph
    pub fn get_num_inlets(&self) -> (n: usize)
        ensures
            n == self.inlets().len(),
    {
        self.inlet_list.len()
    }

    /// Get the number of outlets of this graph
    pub fn get_num_outlets(&self) -> (n: usize)
        ensures
            n == self.outlets().len(),
    {
        self.outlet_list.len()
    }
}

/// Are the slots `after` what the slots `before` become when an outlet of
/// one object is connected to an inlet of another: does the second object
/// have one more incoming connection, the first one more outgoing
/// connection, and is nothing else changed?
pub open spec fn connected(
    before: Seq<Option<Object>>,
    after: Seq<Option<Object>>,
    from_object: object::Id,
    outlet_index: Index,
    to_object: object::Id,
    inlet_index: Index,
) -> bool {
    let from_before = before[from_object.0 as int]->Some_0;
    let to_before = before[to_object.0 as int]->Some_0;
    let from_after = after[from_object.0 as int]->Some_0;
    let to_after = after[to_object.0 as int]->Some_0;
    let incoming = to_before.incoming().update(
        inlet_index.0 as int,
        to_before.incoming()[inlet_index.0 as int].push(
            Connection { first: from_object, second: outlet_index },
        ),
    );
    &&& from_after.same_but_connections(&from_before)
    &&& to_after.same_but_connections(&to_before)
    &&& to_after.incoming() == incoming
    &&& from_after.outgoing() == from_before.outgoing().update(
        outlet_index.0 as int,
        from_before.outgoing()[outlet_index.0 as int].push(
            Connection { first: to_object, second: inlet_index },
        ),
    )
    &&& from_object != to_object ==> from_after.incoming() == from_before.incoming()
        && to_after.outgoing() == to_before.outgoing()
}

/// Are the two objects there, and is an outlet of the first connected to
/// an inlet of the second, on both sides?
pub open spec fn is_wired(
    slots: Seq<Option<Object>>,
    from_object: object::Id,
    outlet_index: Index,
    to_object: object::Id,
    inlet_index: Index,
) -> bool {
    &&& is_live(slots, from_object)
    &&& is_live(slots, to_object)
    &&& outlet_index.0 < slots[from_object.0 as int]->Some_0.outgoing().len()
    &&& inlet_index.0 < slots[to_object.0 as int]->Some_0.incoming().len()
    &&& slots[to_object.0 as int]->Some_0.incoming()[inlet_index.0 as int].contains(
        Connection { first: from_object, second: outlet_index },
    )
    &&& slots[from_object.0 as int]->Some_0.outgoing()[outlet_index.0 as int].contains(
        Connection { first: to_object, second: inlet_index },
    )
}

/// Are the slots `after` what the slots `before` become when the
/// connection from an outlet of one object to an inlet of another is
/// taken away: does the second object have that incoming connection no
/// more, the first that outgoing connection no more, and is nothing else
/// changed?
pub open spec fn disconnected(
    before: Seq<Option<Object>>,
    after: Seq<Option<Object>>,
    from_object: object::Id,
    outlet_index: Index,
    to_object: object::Id,
    inlet_index: Index,
) -> bool {
    let from_before = before[from_object.0 as int]->Some_0;
    let to_before = before[to_object.0 as int]->Some_0;
    let from_after = after[from_object.0 as int]->Some_0;
    let to_after = after[to_object.0 as int]->Some_0;
    &&& from_after.same_but_connections(&from_before)
    &&& to_after.same_but_connections(&to_before)
    &&& exists|p: int| #[trigger]
        is_first_position(
            to_before.incoming()[inlet_index.0 as int],
            Connection { first: from_object, second: outlet_index },
            p,
        ) && to_after.incoming() == to_before.incoming().update(
            inlet_index.0 as int,
            swap_removed(to_before.incoming()[inlet_index.0 as int], p),
        )
    &&& from_object != to_object ==> from_after.incoming() == from_before.incoming()
        && to_after.outgoing() == to_before.outgoing()
    &&& exists|p: int| #[trigger]
        is_first_position(
            from_before.outgoing()[outlet_index.0 as int],
            Connection { first: to_object, second: inlet_index },
            p,
        ) && from_after.outgoing() == from_before.outgoing().update(
            outlet_index.0 as int,
            swap_removed(from_before.outgoing()[outlet_index.0 as int], p),
        )
}

/// The ids without the given one, in their order
pub open spec fn without_id(ids: Seq<object::Id>, id: object::Id) -> Seq<object::Id>
    decreases ids.len(),
{
    if ids.len() == 0 {
        Seq::empty()
    } else if ids.last() == id {
        without_id(ids.drop_last(), id)
    } else {
        without_id(ids.drop_last(), id).push(ids.last())
    }
}

/// Every id that is left without another is one of the ids.
pub proof fn lemma_without_id(ids: Seq<object::Id>, id: object::Id)
    ensures
        forall|k: int|
            0 <= k < without_id(ids, id).len() ==> ids.contains(#[trigger] without_id(ids, id)[k]),
    decreases ids.len(),
{
    if ids.len() > 0 {
        lemma_without_id(ids.drop_last(), id);
        let rest = without_id(ids.drop_last(), id);
        assert forall|k: int| 0 <= k < without_id(ids, id).len() implies ids.contains(
            #[trigger] without_id(ids, id)[k],
        ) by {
            if k < rest.len() {
                assert(without_id(ids, id)[k] == rest[k]);
                let w = choose|w: int| 0 <= w < ids.drop_last().len() && ids.drop_last()[w]
                    == rest[k];
                assert(ids[w] == rest[k]);
            } else {
                assert(ids[ids.len() - 1] == without_id(ids, id)[k]);
            }
        }
    }
}

/// The ids without the given one, in their order
pub fn without(ids: &Vec<object::Id>, id: object::Id) -> (kept: Vec<object::Id>)
    ensures
        kept@ == without_id(ids@, id),
{
    let mut kept: Vec<object::Id> = Vec::new();
    let mut i: usize = 0;
    while i < ids.len()
        invariant
            i <= ids@.len(),
            kept@ == without_id(ids@.take(i as int), id),
        decreases ids@.len() - i,
    {
        proof {
            let next = ids@.take(i as int + 1);
            assert(next.drop_last() =~= ids@.take(i as int));
            assert(next.last() == ids@[i as int]);
        }
        if ids[i].0 != id.0 {
            kept.push(ids[i]);
        }
        i += 1;
    }
    assert(ids@.take(ids@.len() as int) =~= ids@);
    kept
}

/// Is the slot `after` what the slot `before`, with number `i`, becomes
/// when the object `id` is removed: is a free slot free, and does an
/// object keep all but its connections, of which the removed object has
/// none left and every other object those that do not lead to the removed
/// one?
pub open spec fn unwired_at(
    before: Option<Object>,
    after: Option<Object>,
    i: int,
    id: object::Id,
) -> bool {
    match before {
        None => after is None,
        Some(was) => {
            &&& after is Some
            &&& after->Some_0.same_but_connections(&was)
            &&& after->Some_0.incoming() == if i == id.0 {
                Seq::new(was.incoming().len(), |j: int| Seq::<Connection>::empty())
            } else {
                was.incoming().map_values(|list: Seq<Connection>| without_object(list, id))
            }
            &&& after->Some_0.outgoing() == if i == id.0 {
                Seq::new(was.outgoing().len(), |j: int| Seq::<Connection>::empty())
            } else {
                was.outgoing().map_values(|list: Seq<Connection>| without_object(list, id))
            }
        },
    }
}

/// Are the slots `after` what the slots `before` become when the object
/// `id` is removed; see `unwired_at`?
pub open spec fn unwired(
    before: Seq<Option<Object>>,
    after: Seq<Option<Object>>,
    id: object::Id,
) -> bool {
    &&& after.len() == before.len()
    &&& forall|i: int| 0 <= i < before.len() ==> unwired_at(before[i], #[trigger] after[i], i, id)
}

/// The connections of a graph at the inlet or outlet with the given index:
/// those of the inlet or outlet object that stands at that place among
/// `lets`, at its own first inlet or outlet; none where there is no such
/// place, or the object there is no inlet or outlet, or has none itself.
pub open spec fn let_connections(
    slots: Seq<Option<Object>>,
    lets: Seq<object::Id>,
    index: Index,
    incoming: bool,
) -> Seq<Connection> {
    if index.0 >= lets.len() {
        Seq::empty()
    } else {
        let object = slots[lets[index.0 as int].0 as int]->Some_0;
        if incoming {
            if object.type_spec().is_inlet() && object.incoming().len() > 0 {
                object.incoming()[0]
            } else {
                Seq::empty()
            }
        } else {
            if object.type_spec().is_outlet() && object.outgoing().len() > 0 {
                object.outgoing()[0]
            } else {
                Seq::empty()
            }
        }
    }
}

/// Every leaf among the objects of a graph is a leaf.
pub proof fn lemma_leaves_are_leaves(topo: Seq<Option<Node>>, nodes: Seq<object::Id>)
    ensures
        forall|w: int|
            0 <= w < leaves_of(topo, nodes).len() ==> is_leaf_at(
                topo,
                #[trigger] leaves_of(topo, nodes)[w],
            ),
    decreases nodes.len(),
{
    if nodes.len() > 0 {
        lemma_leaves_are_leaves(topo, nodes.drop_last());
        let rest = leaves_of(topo, nodes.drop_last());
        assert forall|w: int| 0 <= w < leaves_of(topo, nodes).len() implies is_leaf_at(
            topo,
            #[trigger] leaves_of(topo, nodes)[w],
        ) by {
            if w < rest.len() {
                assert(leaves_of(topo, nodes)[w] == rest[w]);
            }
        }
    }
}

/// Does every incoming connection of an object of the set come from an
/// object of the set?
pub open spec fn closed_upstream(topo: Seq<Option<Node>>, local: Set<int>) -> bool {
    forall|i: int, k: int|
        local.contains(i) && 0 <= i < topo.len() && topo[i] is Some && 0 <= k
            < topo[i]->Some_0.upstream.len() ==> local.contains(
            (#[trigger] topo[i]->Some_0.upstream[k]).0 as int,
        )
}

/// Does the set hold the slot of every one of the ids?
pub open spec fn all_within(ids: Seq<object::Id>, local: Set<int>) -> bool {
    forall|k: int| 0 <= k < ids.len() ==> local.contains((#[trigger] ids[k]).0 as int)
}

/// The search upstream of an object of a set that is closed upstream
/// reaches objects of the set only, and forgets none that was reached.
pub proof fn lemma_order_stays_within(
    topo: Seq<Option<Node>>,
    visited: Set<int>,
    id: object::Id,
    fuel: nat,
    local: Set<int>,
)
    requires
        closed_upstream(topo, local),
        local.contains(id.0 as int),
    ensures
        order_from(topo, visited, id, fuel).1.difference(local) == visited.difference(local),
        visited.subset_of(order_from(topo, visited, id, fuel).1),
    decreases fuel, 0nat,
{
    if fuel == 0 || visited.contains(id.0 as int) || id.0 >= topo.len() || topo[id.0 as int]
        is None {
    } else {
        let node = topo[id.0 as int]->Some_0;
        assert forall|k: int| 0 <= k < node.upstream.len() implies local.contains(
            (#[trigger] node.upstream[k]).0 as int,
        ) by {
            assert(local.contains(topo[id.0 as int]->Some_0.upstream[k].0 as int));
        }
        lemma_order_all_stays_within(
            topo,
            visited.insert(id.0 as int),
            node.upstream,
            (fuel - 1) as nat,
            local,
        );
        let after = order_from(topo, visited, id, fuel).1;
        assert(after.difference(local) =~= visited.difference(local));
    }
}

/// The searches upstream of objects of a set that is closed upstream
/// reach objects of the set only, and forget none that was reached.
pub proof fn lemma_order_all_stays_within(
    topo: Seq<Option<Node>>,
    visited: Set<int>,
    ids: Seq<object::Id>,
    fuel: nat,
    local: Set<int>,
)
    requires
        closed_upstream(topo, local),
        all_within(ids, local),
    ensures
        order_from_all(topo, visited, ids, fuel).1.difference(local) == visited.difference(local),
        visited.subset_of(order_from_all(topo, visited, ids, fuel).1),
    decreases fuel, ids.len() + 1,
{
    if ids.len() > 0 {
        assert forall|k: int| 0 <= k < ids.drop_last().len() implies local.contains(
            (#[trigger] ids.drop_last()[k]).0 as int,
        ) by {
            assert(local.contains(ids[k].0 as int));
        }
        lemma_order_all_stays_within(topo, visited, ids.drop_last(), fuel, local);
        let before = order_from_all(topo, visited, ids.drop_last(), fuel);
        assert(local.contains(ids[ids.len() - 1].0 as int));
        lemma_order_stays_within(topo, before.1, ids.last(), fuel, local);
    }
}

/// The leaves among the objects of a graph are objects of the graph.
pub proof fn lemma_leaves_within(topo: Seq<Option<Node>>, nodes: Seq<object::Id>)
    ensures
        all_within(leaves_of(topo, nodes), slots_of(nodes)),
    decreases nodes.len(),
{
    if nodes.len() > 0 {
        lemma_leaves_within(topo, nodes.drop_last());
        let rest = leaves_of(topo, nodes.drop_last());
        assert forall|k: int| 0 <= k < leaves_of(topo, nodes).len() implies slots_of(
            nodes,
        ).contains((#[trigger] leaves_of(topo, nodes)[k]).0 as int) by {
            if k < rest.len() {
                assert(leaves_of(topo, nodes)[k] == rest[k]);
                assert(slots_of(nodes.drop_last()).contains(rest[k].0 as int));
                let w = choose|w: int|
                    0 <= w < nodes.drop_last().len() && (#[trigger] nodes.drop_last()[w]).0
                        == rest[k].0;
                assert(nodes[w].0 == rest[k].0);
            } else {
                assert(nodes[nodes.len() - 1].0 == leaves_of(topo, nodes)[k].0);
            }
        }
    }
}

/// The process order is repeatable: in a graph whose incoming connections
/// all come from its own objects, the order computed a second time, from
/// the marks that the first computation left, is the same order, and
/// leaves the same marks.
pub proof fn lemma_process_order_repeatable(
    topo: Seq<Option<Node>>,
    visited: Set<int>,
    nodes: Seq<object::Id>,
)
    requires
        closed_upstream(topo, slots_of(nodes)),
    ensures
        local_process_order(topo, local_process_order(topo, visited, nodes).1, nodes)
            == local_process_order(topo, visited, nodes),
{
    let local = slots_of(nodes);
    let reset = visited.difference(local);
    lemma_leaves_within(topo, nodes);
    lemma_order_all_stays_within(topo, reset, leaves_of(topo, nodes), topo.len(), local);
    let first = local_process_order(topo, visited, nodes);
    assert(first.1.difference(local) =~= reset.difference(local));
    assert(reset.difference(local) =~= reset);
}

/// Is `rank` a numbering of the objects of the set in which every
/// connection leads from a lower number to a higher one? The objects of
/// the set are all there, their incoming connections come from objects of
/// the set, and the numbers lie below the number of slots. Such a
/// numbering exists exactly when no chain of connections within the set
/// leads back to where it began.
pub open spec fn numbered(
    topo: Seq<Option<Node>>,
    local: Set<int>,
    rank: spec_fn(int) -> int,
) -> bool {
    &&& forall|i: int| #[trigger]
        local.contains(i) ==> 0 <= i < topo.len() && topo[i] is Some && 0 <= rank(i) < topo.len()
    &&& forall|i: int, k: int|
        local.contains(i) && 0 <= i < topo.len() && topo[i] is Some && 0 <= k
            < topo[i]->Some_0.upstream.len() ==> local.contains(
            (#[trigger] topo[i]->Some_0.upstream[k]).0 as int,
        ) && rank(topo[i]->Some_0.upstream[k].0 as int) < rank(i)
}

/// Does the object process audio?
pub open spec fn is_audio(topo: Seq<Option<Node>>, id: object::Id) -> bool {
    id.0 < topo.len() && topo[id.0 as int] is Some && topo[id.0 as int]->Some_0.audio
}

/// Does the object `y` stand in the order before place `i`?
pub open spec fn comes_before(order: Seq<object::Id>, y: object::Id, i: int) -> bool {
    exists|j: int| 0 <= j < i && j < order.len() && order[j] == y
}

/// Does every object of the order stand behind the objects that feed it:
/// behind every object that processes audio and that one of its incoming
/// connections comes from?
pub open spec fn feeds_in_order(topo: Seq<Option<Node>>, order: Seq<object::Id>) -> bool {
    forall|i: int, k: int|
        0 <= i < order.len() && order[i].0 < topo.len() && topo[order[i].0 as int] is Some && 0
            <= k < topo[order[i].0 as int]->Some_0.upstream.len() && is_audio(
            topo,
            topo[order[i].0 as int]->Some_0.upstream[k],
        ) ==> #[trigger] comes_before(order, topo[order[i].0 as int]->Some_0.upstream[k], i)
}

/// The state of a search for a process order: `finished` are the objects
/// whose search is complete, all of them reached and of the set; those
/// that process audio stand in the order `pre` so far, which has every
/// object behind the objects that feed it.
pub open spec fn search_state(
    topo: Seq<Option<Node>>,
    local: Set<int>,
    visited: Set<int>,
    finished: Set<int>,
    pre: Seq<object::Id>,
) -> bool {
    &&& forall|y: int| #[trigger] finished.contains(y) ==> visited.contains(y) && local.contains(y)
    &&& forall|y: int| #[trigger]
        finished.contains(y) && is_audio(topo, object::Id(y as usize)) ==> comes_before(
            pre,
            object::Id(y as usize),
            pre.len() as int,
        )
    &&& feeds_in_order(topo, pre)
}

/// Is every object that is reached but not finished, the objects whose
/// search is under way, numbered above `bound`?
pub open spec fn under_way_above(
    local: Set<int>,
    rank: spec_fn(int) -> int,
    visited: Set<int>,
    finished: Set<int>,
    bound: int,
) -> bool {
    forall|s: int|
        local.contains(s) && #[trigger] visited.contains(s) && !finished.contains(s) ==> rank(s)
            > bound
}

/// An order that has every object behind the objects that feed it keeps
/// that when it grows at its end by objects of which the same holds.
proof fn lemma_comes_before_grows(order: Seq<object::Id>, more: Seq<object::Id>, y: object::Id, i: int)
    requires
        comes_before(order, y, i),
    ensures
        comes_before(order + more, y, i),
{
    let j = choose|j: int| 0 <= j < i && j < order.len() && order[j] == y;
    assert((order + more)[j] == y);
}

/// The search upstream of one object of a numbered set finishes the
/// object, keeps the objects whose search is under way, and leaves an
/// order in which every object stands behind the objects that feed it.
pub proof fn lemma_search_from(
    topo: Seq<Option<Node>>,
    local: Set<int>,
    rank: spec_fn(int) -> int,
    visited: Set<int>,
    finished: Set<int>,
    pre: Seq<object::Id>,
    id: object::Id,
    fuel: nat,
)
    requires
        numbered(topo, local, rank),
        local.contains(id.0 as int),
        search_state(topo, local, visited, finished, pre),
        under_way_above(local, rank, visited, finished, rank(id.0 as int)),
        fuel > rank(id.0 as int),
    ensures
        ({
            let r = order_from(topo, visited, id, fuel);
            let done = finished.union(r.1.difference(visited));
            &&& visited.subset_of(r.1)
            &&& search_state(topo, local, r.1, done, pre + r.0)
            &&& done.contains(id.0 as int)
            &&& forall|s: int|
                local.contains(s) ==> ((#[trigger] r.1.contains(s) && !done.contains(s)) <==> (
                visited.contains(s) && !finished.contains(s)))
        }),
    decreases fuel, 0nat,
{
    let r = order_from(topo, visited, id, fuel);
    let done = finished.union(r.1.difference(visited));
    if visited.contains(id.0 as int) {
        assert(r.0 =~= Seq::<object::Id>::empty());
        assert(pre + r.0 =~= pre);
        assert(done =~= finished);
        // an object that is reached and numbered no higher than itself is
        // finished
        assert(finished.contains(id.0 as int));
    } else {
        let node = topo[id.0 as int]->Some_0;
        let marked = visited.insert(id.0 as int);
        let above = order_from_all(topo, marked, node.upstream, (fuel - 1) as nat);
        assert forall|k: int| 0 <= k < node.upstream.len() implies local.contains(
            (#[trigger] node.upstream[k]).0 as int,
        ) && rank(node.upstream[k].0 as int) < rank(id.0 as int) by {
            assert(local.contains(topo[id.0 as int]->Some_0.upstream[k].0 as int));
        }
        assert(search_state(topo, local, marked, finished, pre));
        lemma_search_from_all(
            topo,
            local,
            rank,
            marked,
            finished,
            pre,
            node.upstream,
            (fuel - 1) as nat,
            rank(id.0 as int) - 1,
        );
        let done_above = finished.union(above.1.difference(marked));
        assert(done =~= done_above.insert(id.0 as int));
        let grown = pre + above.0;
        assert(pre + r.0 =~= if node.audio {
            grown.push(id)
        } else {
            grown
        });
        let full = pre + r.0;
        assert forall|y: int| #[trigger]
            done.contains(y) && is_audio(topo, object::Id(y as usize)) implies comes_before(
            full,
            object::Id(y as usize),
            full.len() as int,
        ) by {
            if y == id.0 {
                assert(full[full.len() - 1] == id);
            } else {
                assert(done_above.contains(y));
                let j = choose|j: int|
                    0 <= j < grown.len() && j < grown.len() && grown[j] == object::Id(y as usize);
                assert(full[j] == object::Id(y as usize));
            }
        }
        assert forall|i: int, k: int|
            0 <= i < full.len() && full[i].0 < topo.len() && topo[full[i].0 as int] is Some && 0
                <= k < topo[full[i].0 as int]->Some_0.upstream.len() && is_audio(
                topo,
                topo[full[i].0 as int]->Some_0.upstream[k],
            ) implies #[trigger] comes_before(
            full,
            topo[full[i].0 as int]->Some_0.upstream[k],
            i,
        ) by {
            let y = topo[full[i].0 as int]->Some_0.upstream[k];
            if i < grown.len() {
                assert(full[i] == grown[i]);
                assert(comes_before(grown, y, i));
                let j = choose|j: int| 0 <= j < i && j < grown.len() && grown[j] == y;
                assert(full[j] == y);
            } else {
                // the object itself: what feeds it is finished
                assert(full[i] == id);
                assert(y == node.upstream[k]);
                assert(done_above.contains(y.0 as int));
                assert(object::Id(y.0 as int as usize) == y);
                assert(comes_before(grown, y, grown.len() as int));
                let j = choose|j: int| 0 <= j < grown.len() && j < grown.len() && grown[j] == y;
                assert(full[j] == y);
            }
        }
    }
}

/// The searches upstream of objects of a numbered set, one after the
/// other, finish the objects, keep the objects whose search is under way,
/// and leave an order in which every object stands behind the objects that
/// feed it.
pub proof fn lemma_search_from_all(
    topo: Seq<Option<Node>>,
    local: Set<int>,
    rank: spec_fn(int) -> int,
    visited: Set<int>,
    finished: Set<int>,
    pre: Seq<object::Id>,
    ids: Seq<object::Id>,
    fuel: nat,
    bound: int,
)
    requires
        numbered(topo, local, rank),
        forall|k: int|
            0 <= k < ids.len() ==> local.contains((#[trigger] ids[k]).0 as int) && rank(
                ids[k].0 as int,
            ) <= bound,
        search_state(topo, local, visited, finished, pre),
        under_way_above(local, rank, visited, finished, bound),
        fuel > bound,
    ensures
        ({
            let r = order_from_all(topo, visited, ids, fuel);
            let done = finished.union(r.1.difference(visited));
            &&& visited.subset_of(r.1)
            &&& search_state(topo, local, r.1, done, pre + r.0)
            &&& forall|k: int| 0 <= k < ids.len() ==> done.contains((#[trigger] ids[k]).0 as int)
            &&& forall|s: int|
                local.contains(s) ==> ((#[trigger] r.1.contains(s) && !done.contains(s)) <==> (
                visited.contains(s) && !finished.contains(s)))
        }),
    decreases fuel, ids.len() + 1,
{
    let r = order_from_all(topo, visited, ids, fuel);
    let done = finished.union(r.1.difference(visited));
    if ids.len() == 0 {
        assert(pre + r.0 =~= pre);
        assert(done =~= finished);
    } else {
        let before = order_from_all(topo, visited, ids.drop_last(), fuel);
        assert forall|k: int| 0 <= k < ids.drop_last().len() implies local.contains(
            (#[trigger] ids.drop_last()[k]).0 as int,
        ) && rank(ids.drop_last()[k].0 as int) <= bound by {
            assert(local.contains(ids[k].0 as int));
        }
        lemma_search_from_all(topo, local, rank, visited, finished, pre, ids.drop_last(), fuel, bound);
        let done_before = finished.union(before.1.difference(visited));
        let last = ids.last();
        assert(local.contains(ids[ids.len() - 1].0 as int));
        assert(under_way_above(local, rank, before.1, done_before, rank(last.0 as int))) by {
            assert forall|s: int|
                local.contains(s) && #[trigger] before.1.contains(s) && !done_before.contains(
                    s,
                ) implies rank(s) > rank(last.0 as int) by {
                assert(visited.contains(s) && !finished.contains(s));
            }
        }
        lemma_search_from(topo, local, rank, before.1, done_before, pre + before.0, last, fuel);
        let after = order_from(topo, before.1, last, fuel);
        assert(r.0 == before.0 + after.0);
        assert(pre + r.0 =~= (pre + before.0) + after.0);
        assert(done =~= done_before.union(after.1.difference(before.1)));
        assert forall|k: int| 0 <= k < ids.len() implies done.contains(
            (#[trigger] ids[k]).0 as int,
        ) by {
            if k < ids.len() - 1 {
                assert(done_before.contains(ids.drop_last()[k].0 as int));
            }
        }
    }
}

/// The process order has every object behind the objects that feed it.
/// In a graph whose objects can be numbered so that every connection
/// leads from a lower number to a higher one, every object of the process
/// order stands behind every object that processes audio and that one of
/// its incoming connections comes from.
pub proof fn lemma_process_order_feeds_in_order(
    topo: Seq<Option<Node>>,
    visited: Set<int>,
    nodes: Seq<object::Id>,
    rank: spec_fn(int) -> int,
)
    requires
        numbered(topo, slots_of(nodes), rank),
    ensures
        feeds_in_order(topo, local_process_order(topo, visited, nodes).0),
{
    let local = slots_of(nodes);
    let reset = visited.difference(local);
    let leaves = leaves_of(topo, nodes);
    lemma_leaves_within(topo, nodes);
    let empty = Seq::<object::Id>::empty();
    assert forall|k: int| 0 <= k < leaves.len() implies local.contains(
        (#[trigger] leaves[k]).0 as int,
    ) && rank(leaves[k].0 as int) <= topo.len() - 1 by {}
    lemma_search_from_all(
        topo,
        local,
        rank,
        reset,
        Set::<int>::empty(),
        empty,
        leaves,
        topo.len(),
        topo.len() - 1,
    );
    let r = order_from_all(topo, reset, leaves, topo.len());
    assert(empty + r.0 =~= r.0);
}

} // verus!
