use purezen::allocator::{Allocated, Allocator, FixedSizeAllocator, GraphAllocator};
use purezen::error::ErrorKind;
use purezen::message::element::Element;
use purezen::message::object::connection::{self, Connection, Index};
use purezen::message::object::{Coordinates, Delivery, Id, Object, Type};
use purezen::message::send::controller::{
    Controller, RemoteMessageReceiver, SYSTEM_NAME_INDEX,
};
use purezen::message::symbol::Symbol;
use purezen::message::Timestamp;
use purezen::pd::graph;
use purezen::pd::message::{Atom, Message};
use purezen::pd::Graph;

fn parse(token: &str) -> Option<u32> {
    token.parse::<f32>().ok().map(f32::to_bits)
}

fn at(ms: f64) -> Timestamp {
    Timestamp(ms.to_bits())
}

fn message(ms: f64, text: &'static str) -> Message<'static> {
    Message::from_string(8, at(ms), text, parse).unwrap()
}

fn float(value: f32) -> Atom<'static> {
    Atom::Float(value.to_bits())
}

fn summary(deliveries: &[Delivery<'static>]) -> Vec<(usize, usize, Vec<Atom<'static>>)> {
    deliveries
        .iter()
        .map(|d| {
            let atoms = (0..d.message.get_num_elements())
                .map(|i| d.message.get_element(i).unwrap())
                .collect();
            (d.object_id.0, d.inlet_index.0, atoms)
        })
        .collect()
}

#[test]
fn allocator_gives_each_object_the_id_of_its_slot() {
    let mut allocator = FixedSizeAllocator::new("object");
    assert_eq!(allocator.label(), "object");
    assert_eq!(allocator.capacity(), 32);
    for slot in 0..32 {
        assert!(!allocator.is_full());
        assert_eq!(allocator.lowest_free_slot(), Some(slot));
        let object = Object::new(&mut allocator);
        assert_eq!(object.id(), Id(slot));
    }
    assert!(allocator.is_full());
    assert_eq!(allocator.lowest_free_slot(), None);
    for slot in 0..32 {
        assert_eq!(allocator.get(Id(slot)).unwrap().id(), Id(slot));
        assert_eq!(allocator.get_mut(Id(slot)).unwrap().id(), Id(slot));
        assert_eq!(Id(slot).get(&allocator).id(), Id(slot));
        assert_eq!(Id(slot).get_mut(&mut allocator).id(), Id(slot));
    }
}

#[test]
fn allocator_has_nothing_at_free_or_missing_slots() {
    let mut allocator = FixedSizeAllocator::new("object");
    assert!(allocator.get(Id(0)).is_none());
    assert!(allocator.get_mut(Id(31)).is_none());
    Object::new(&mut allocator);
    assert!(allocator.get(Id(0)).is_some());
    assert!(allocator.get(Id(1)).is_none());
    assert!(allocator.get(Id(32)).is_none());
    assert!(allocator.get_mut(Id(32)).is_none());
    assert!(allocator.get(Id(usize::MAX)).is_none());
}

#[test]
fn allocator_calls_the_factory_with_the_id() {
    let mut allocator = GraphAllocator::new("graph");
    assert_eq!(allocator.capacity(), 1);
    assert!(allocator.get(graph::Id(0)).is_none());
    let graph = allocator.allocate(Graph::new);
    assert_eq!(graph.id(), graph::Id(0));
    assert!(allocator.is_full());
    assert!(allocator.get(graph::Id(0)).is_some());
    assert!(allocator.get(graph::Id(1)).is_none());
    assert_eq!(allocator.label(), "graph");
}

#[test]
fn new_object_is_bare() {
    let mut allocator = FixedSizeAllocator::new("object");
    let object = Object::new(&mut allocator);
    assert_eq!(object.get_num_inlets(), 0);
    assert_eq!(object.get_num_outlets(), 0);
    assert_eq!(object.object_type(), Type::UNKNOWN);
    assert_eq!(Object::get_object_type(), Type::UNKNOWN);
    assert_eq!(object.get_coordinates(), Coordinates::default());
    assert!(!object.is_ordered());
    assert!(object.is_leaf_node());
    assert!(object.should_distribute_message_to_inlets());
    assert_eq!(object.get_connection_type(Index(0)), connection::Type::MESSAGE);
}

#[test]
fn object_with_lets_and_its_limits() {
    let mut allocator = FixedSizeAllocator::new("object");
    assert_eq!(
        Object::with_lets(&mut allocator, Type::DSP_ADD, 9, 1)
            .err()
            .unwrap()
            .kind(),
        ErrorKind::BufferOverflow
    );
    assert_eq!(
        Object::with_lets(&mut allocator, Type::DSP_ADD, 1, 9)
            .err()
            .unwrap()
            .kind(),
        ErrorKind::BufferOverflow
    );
    assert!(allocator.get(Id(0)).is_none());
    let object = Object::with_lets(&mut allocator, Type::DSP_ADD, 2, 1).ok().unwrap();
    assert_eq!(object.id(), Id(0));
    assert_eq!(object.get_num_inlets(), 2);
    assert_eq!(object.get_num_outlets(), 1);
    assert_eq!(object.object_type(), Type::DSP_ADD);
    assert!(!object.should_distribute_message_to_inlets());
    assert_eq!(object.get_connection_type(Index(0)), connection::Type::DSP);
    object.set_coordinates(Coordinates::new(1.5f32.to_bits(), 2.5f32.to_bits()));
    assert_eq!(
        object.get_coordinates(),
        Coordinates { x: 1.5f32.to_bits(), y: 2.5f32.to_bits() }
    );
}

#[test]
fn object_connections() {
    let mut allocator = FixedSizeAllocator::new("object");
    let object = Object::with_lets(&mut allocator, Type::UNKNOWN, 2, 2).ok().unwrap();
    assert!(object.is_leaf_node());
    assert!(object
        .add_connection_from_object_to_inlet(Id(5), Index(0), Index(1))
        .is_ok());
    assert!(object
        .add_connection_from_object_to_inlet(Id(6), Index(1), Index(1))
        .is_ok());
    assert!(object
        .add_connection_to_object_from_outlet(Id(7), Index(0), Index(0))
        .is_ok());
    assert!(!object.is_leaf_node());
    assert_eq!(
        object.get_incoming_connections(Index(1)).to_vec(),
        vec![Connection::new(Id(5), Index(0)), Connection::new(Id(6), Index(1))]
    );
    assert!(object.get_incoming_connections(Index(0)).is_empty());
    assert_eq!(
        object.get_outgoing_connections(Index(0)).to_vec(),
        vec![Connection::new(Id(7), Index(0))]
    );
    assert!(object
        .remove_connection_from_object_to_inlet(Id(5), Index(0), Index(1))
        .is_ok());
    assert_eq!(
        object.get_incoming_connections(Index(1)).to_vec(),
        vec![Connection::new(Id(6), Index(1))]
    );
    assert!(object
        .remove_connection_to_object_from_outlet(Id(7), Index(0), Index(0))
        .is_ok());
    assert!(object.is_leaf_node());
    object.update_incoming_message_connection(Id(6), Index(1), Index(1), Index(0));
    object.update_outgoing_message_connection(Id(6), Index(1), Index(1), Index(0));
    assert_eq!(
        object.get_incoming_connections(Index(1)).to_vec(),
        vec![Connection::new(Id(6), Index(1))]
    );
}

#[test]
fn object_inlet_overflow() {
    let mut allocator = FixedSizeAllocator::new("object");
    let object = Object::with_lets(&mut allocator, Type::UNKNOWN, 1, 1).ok().unwrap();
    for i in 0..64 {
        assert!(object
            .add_connection_from_object_to_inlet(Id(i), Index(0), Index(0))
            .is_ok());
        assert!(object
            .add_connection_to_object_from_outlet(Id(i), Index(0), Index(0))
            .is_ok());
    }
    assert_eq!(
        object
            .add_connection_from_object_to_inlet(Id(64), Index(0), Index(0))
            .err()
            .unwrap()
            .kind(),
        ErrorKind::BufferOverflow
    );
    assert_eq!(
        object
            .add_connection_to_object_from_outlet(Id(64), Index(0), Index(0))
            .err()
            .unwrap()
            .kind(),
        ErrorKind::BufferOverflow
    );
}

#[test]
fn ordered_flag() {
    let mut allocator = FixedSizeAllocator::new("object");
    let object = Object::new(&mut allocator);
    object.set_ordered_flag();
    assert!(object.is_ordered());
    object.reset_ordered_flag();
    assert!(!object.is_ordered());
}

#[test]
fn senders_are_leaves_whatever_they_are_connected_to() {
    let mut allocator = FixedSizeAllocator::new("object");
    for kind in [Type::MESSAGE_SEND, Type::DSP_SEND, Type::DSP_THROW] {
        let object = Object::with_lets(&mut allocator, kind, 1, 1).ok().unwrap();
        object
            .add_connection_to_object_from_outlet(Id(0), Index(0), Index(0))
            .unwrap();
        assert!(object.is_leaf_node());
    }
    let object = Object::with_lets(&mut allocator, Type::DSP_ADD, 1, 1).ok().unwrap();
    object
        .add_connection_to_object_from_outlet(Id(0), Index(0), Index(0))
        .unwrap();
    assert!(!object.is_leaf_node());
}

#[test]
fn message_is_distributed_to_inlets_right_to_left() {
    let mut allocator = FixedSizeAllocator::new("object");
    let object = Object::with_lets(&mut allocator, Type::UNKNOWN, 3, 0).ok().unwrap();
    let deliveries = object.receive_message(Index(0), &message(4.0, "1 ;two ;3"));
    assert_eq!(
        summary(&deliveries),
        vec![
            (0, 2, vec![float(3.0)]),
            (0, 1, vec![Atom::Symbol("two")]),
            (0, 0, vec![float(1.0)]),
        ]
    );
    for delivery in &deliveries {
        assert_eq!(delivery.message.get_timestamp(), at(4.0));
        assert_eq!(delivery.message.capacity(), 1);
    }
}

#[test]
fn distribution_stops_at_the_fewer_of_atoms_and_inlets() {
    let mut allocator = FixedSizeAllocator::new("object");
    let two = Object::with_lets(&mut allocator, Type::UNKNOWN, 2, 0).ok().unwrap();
    let deliveries = two.receive_message(Index(0), &message(0.0, "1 ;2 ;3 ;4"));
    assert_eq!(
        summary(&deliveries),
        vec![(0, 1, vec![float(2.0)]), (0, 0, vec![float(1.0)])]
    );
    let four = Object::with_lets(&mut allocator, Type::UNKNOWN, 4, 0).ok().unwrap();
    let deliveries = four.receive_message(Index(0), &message(0.0, "a ;b"));
    assert_eq!(
        summary(&deliveries),
        vec![(1, 1, vec![Atom::Symbol("b")]), (1, 0, vec![Atom::Symbol("a")])]
    );
}

#[test]
fn bangs_are_left_out_of_a_distribution() {
    let mut allocator = FixedSizeAllocator::new("object");
    let object = Object::with_lets(&mut allocator, Type::UNKNOWN, 3, 0).ok().unwrap();
    let deliveries = object.receive_message(Index(0), &message(0.0, "1 ;! ;3"));
    assert_eq!(
        summary(&deliveries),
        vec![(0, 2, vec![float(3.0)]), (0, 0, vec![float(1.0)])]
    );
}

#[test]
fn message_is_handed_on_whole_where_it_is_not_distributed() {
    let mut allocator = FixedSizeAllocator::new("object");
    let whole = vec![float(1.0), float(2.0), float(3.0)];
    let object = Object::with_lets(&mut allocator, Type::UNKNOWN, 3, 0).ok().unwrap();
    // not at the left-most inlet
    let deliveries = object.receive_message(Index(1), &message(0.0, "1 ;2 ;3"));
    assert_eq!(summary(&deliveries), vec![(0, 1, whole.clone())]);
    // a single atom
    let deliveries = object.receive_message(Index(0), &message(0.0, "1"));
    assert_eq!(summary(&deliveries), vec![(0, 0, vec![float(1.0)])]);
    // a single inlet
    let single = Object::with_lets(&mut allocator, Type::UNKNOWN, 1, 0).ok().unwrap();
    let deliveries = single.receive_message(Index(0), &message(0.0, "1 ;2 ;3"));
    assert_eq!(summary(&deliveries), vec![(1, 0, whole.clone())]);
    // an object that processes audio
    let dsp = Object::with_lets(&mut allocator, Type::DSP_ADD, 3, 0).ok().unwrap();
    let deliveries = dsp.receive_message(Index(0), &message(7.0, "1 ;2 ;3"));
    assert_eq!(summary(&deliveries), vec![(2, 0, whole)]);
    assert_eq!(deliveries[0].message.get_timestamp(), at(7.0));
    assert_eq!(deliveries[0].message.capacity(), 8);
}

#[test]
fn send_message_fans_out_over_the_connections() {
    let mut allocator = FixedSizeAllocator::new("object");
    Object::with_lets(&mut allocator, Type::UNKNOWN, 1, 2).ok().unwrap();
    Object::with_lets(&mut allocator, Type::UNKNOWN, 2, 0).ok().unwrap();
    Object::with_lets(&mut allocator, Type::UNKNOWN, 1, 0).ok().unwrap();
    {
        let source = Id(0).get_mut(&mut allocator);
        source
            .add_connection_to_object_from_outlet(Id(2), Index(0), Index(1))
            .unwrap();
        source
            .add_connection_to_object_from_outlet(Id(1), Index(0), Index(1))
            .unwrap();
        source
            .add_connection_to_object_from_outlet(Id(1), Index(1), Index(1))
            .unwrap();
    }
    let source = Id(0).get(&allocator);
    let deliveries = source.send_message(&allocator, Index(1), &message(0.0, "a ;b"));
    assert_eq!(
        summary(&deliveries),
        vec![
            (2, 0, vec![Atom::Symbol("a"), Atom::Symbol("b")]),
            (1, 1, vec![Atom::Symbol("b")]),
            (1, 0, vec![Atom::Symbol("a")]),
            (1, 1, vec![Atom::Symbol("a"), Atom::Symbol("b")]),
        ]
    );
    let deliveries = source.send_message(&allocator, Index(0), &message(0.0, "a ;b"));
    assert!(deliveries.is_empty());
    let list = source.get_outgoing_connections(Index(1));
    assert_eq!(list.send_message(&allocator, &message(0.0, "x")).len(), 3);
}

#[test]
fn controller_names_and_receivers() {
    let mut allocator = FixedSizeAllocator::new("object");
    for _ in 0..3 {
        Object::with_lets(&mut allocator, Type::MESSAGE_RECEIVE, 2, 1).ok().unwrap();
    }
    let mut controller = Controller::new();
    assert_eq!(controller.get_name_index("pd"), Some(Index(SYSTEM_NAME_INDEX)));
    assert!(controller.receiver_exists("pd"));
    assert_eq!(controller.get_name_index("a"), None);
    assert!(!controller.receiver_exists("a"));
    assert!(controller.add_receiver(RemoteMessageReceiver::new("a", Id(1))).is_ok());
    assert!(controller.add_receiver(RemoteMessageReceiver::new("b", Id(2))).is_ok());
    assert!(controller.add_receiver(RemoteMessageReceiver::new("a", Id(0))).is_ok());
    assert!(controller.add_receiver(RemoteMessageReceiver::new("a", Id(1))).is_ok());
    assert_eq!(controller.num_names(), 2);
    assert_eq!(controller.get_name_index("a"), Some(Index(0)));
    assert_eq!(controller.get_name_index("b"), Some(Index(1)));
    assert_eq!(RemoteMessageReceiver::new("a", Id(1)).get_name(), "a");
    assert_eq!(
        controller
            .add_receiver(RemoteMessageReceiver::new("pd", Id(1)))
            .err()
            .unwrap()
            .kind(),
        ErrorKind::IndexOutOfBounds
    );
    let deliveries = controller.receive_message(&allocator, "a", &message(1.0, "x ;y"));
    assert_eq!(
        summary(&deliveries),
        vec![
            (1, 1, vec![Atom::Symbol("y")]),
            (1, 0, vec![Atom::Symbol("x")]),
            (0, 1, vec![Atom::Symbol("y")]),
            (0, 0, vec![Atom::Symbol("x")]),
        ]
    );
    assert!(controller.receive_message(&allocator, "none", &message(1.0, "x")).is_empty());
    assert!(controller.receive_message(&allocator, "pd", &message(1.0, "x")).is_empty());
    let deliveries = controller.send_message(&allocator, Index(1), &message(1.0, "x"));
    assert_eq!(summary(&deliveries), vec![(2, 0, vec![Atom::Symbol("x")])]);
    assert!(controller
        .send_message(&allocator, Index(SYSTEM_NAME_INDEX), &message(1.0, "x"))
        .is_empty());
    controller.remove_receiver(RemoteMessageReceiver::new("a", Id(1)));
    controller.remove_receiver(RemoteMessageReceiver::new("a", Id(9)));
    controller.remove_receiver(RemoteMessageReceiver::new("zzz", Id(1)));
    let deliveries = controller.receive_message(&allocator, "a", &message(1.0, "x"));
    assert_eq!(summary(&deliveries), vec![(0, 0, vec![Atom::Symbol("x")])]);
    assert_eq!(controller.get_name_index("a"), Some(Index(0)));
}

#[test]
fn controller_limits() {
    let mut controller = Controller::default();
    let long = "a-name-of-more-than-thirty-two-bytes";
    assert_eq!(
        controller
            .add_receiver(RemoteMessageReceiver::new(long, Id(0)))
            .err()
            .unwrap()
            .kind(),
        ErrorKind::BufferOverflow
    );
    let names: Vec<String> = (0..65).map(|i| format!("name{}", i)).collect();
    for name in &names[..64] {
        assert!(controller.add_receiver(RemoteMessageReceiver::new(name, Id(0))).is_ok());
    }
    assert_eq!(
        controller
            .add_receiver(RemoteMessageReceiver::new(&names[64], Id(0)))
            .err()
            .unwrap()
            .kind(),
        ErrorKind::BufferOverflow
    );
    assert_eq!(controller.num_names(), 64);
    for id in 1..32 {
        assert!(controller.add_receiver(RemoteMessageReceiver::new("name3", Id(id))).is_ok());
    }
    assert_eq!(
        controller
            .add_receiver(RemoteMessageReceiver::new("name3", Id(32)))
            .err()
            .unwrap()
            .kind(),
        ErrorKind::BufferOverflow
    );
    assert!(controller.add_receiver(RemoteMessageReceiver::new("name3", Id(5))).is_ok());
}

#[test]
fn external_receivers() {
    let mut controller = Controller::new();
    assert!(!controller.is_external_receiver("out"));
    assert!(controller.register_external_receiver("out").is_ok());
    assert!(controller.register_external_receiver("out").is_ok());
    assert!(controller.register_external_receiver("meter").is_ok());
    assert!(controller.is_external_receiver("out"));
    assert!(controller.is_external_receiver("meter"));
    controller.unregister_external_receiver("out");
    controller.unregister_external_receiver("never");
    assert!(!controller.is_external_receiver("out"));
    assert!(controller.is_external_receiver("meter"));
    let names: Vec<String> = (0..32).map(|i| format!("ext{}", i)).collect();
    for name in &names[..31] {
        assert!(controller.register_external_receiver(name).is_ok());
    }
    assert_eq!(
        controller.register_external_receiver(&names[31]).err().unwrap().kind(),
        ErrorKind::BufferOverflow
    );
    assert!(controller.register_external_receiver("meter").is_ok());
    assert_eq!(
        Controller::new()
            .register_external_receiver("a-name-of-more-than-thirty-two-bytes")
            .err()
            .unwrap()
            .kind(),
        ErrorKind::BufferOverflow
    );
}

#[test]
fn symbols_and_elements() {
    let symbol = Symbol::new("metro");
    assert_eq!(symbol.as_str(), "metro");
    assert!(symbol.is_equal_to(&Symbol::new("metro")));
    assert!(!symbol.is_equal_to(&Symbol::new("metr")));
    assert_eq!(symbol.clone().as_str(), "metro");
    let longest = "x".repeat(56);
    assert_eq!(Symbol::try_new(&longest).unwrap().as_str(), longest);
    assert!(Symbol::try_new(&"x".repeat(57)).is_none());
    assert!(Symbol::try_new(&"ä".repeat(28)).is_some());
    assert!(Symbol::try_new(&"ä".repeat(29)).is_none());

    let mut element = Element::from_float(1.5f32.to_bits());
    assert!(element.is_float());
    assert_eq!(element.get_float(), Some(1.5f32.to_bits()));
    assert_eq!(element.get_symbol(), None);
    element.set_float(2.5f32.to_bits());
    assert_eq!(element.get_float(), Some(2.5f32.to_bits()));
    assert!(element.is_equal_to(&Element::from_atom(float(2.5))));
    let mut element = Element::from_symbol("a");
    assert!(element.is_symbol() && element.is_symbol_str("a"));
    element.set_symbol("b");
    assert_eq!(element.get_symbol(), Some("b"));
    assert!(element.is_equal_to(&Element::from_atom(Atom::Symbol("b"))));
    assert!(!element.is_equal_to(&Element::from_atom(Atom::Symbol("c"))));
    assert!(Element::from_atom(Atom::Bang).is_bang());
    assert!(Element::from_atom(Atom::List).is_list());
    assert!(Element::from_atom(Atom::Anything).is_anything());
    assert_eq!(
        Element::from_atom(Atom::Bang).get_type(),
        purezen::message::element::Type::BANG
    );
    assert!(!Element::Float(f32::NAN.to_bits()).is_equal_to(&Element::Float(f32::NAN.to_bits())));
}

#[test]
fn element_setters() {
    let mut element = Element::from_float(1.0f32.to_bits());
    element.set_bang();
    assert!(element.is_bang());
    element.set_list();
    assert!(element.is_list());
    element.set_anything();
    assert!(element.is_anything());
}
