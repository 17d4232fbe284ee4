use purezen::error::ErrorKind;
use purezen::message::object::connection::{Connection, Index};
use purezen::message::object::{Delivery, Id, Type};
use purezen::message::send::controller::{RemoteMessageReceiver, SYSTEM_NAME_INDEX};
use purezen::message::send::{default_name, Send};
use purezen::message::Timestamp;
use purezen::pd::context::{Context, SystemCommand, SEND_CONTROLLER_ID};
use purezen::pd::graph::{self, Connected, DspStep};
use purezen::pd::message::{Atom, Message};

fn parse(token: &str) -> Option<u32> {
    token.parse::<f32>().ok().map(f32::to_bits)
}

fn at(ms: f64) -> Timestamp {
    Timestamp(ms.to_bits())
}

fn message(ms: f64, text: &'static str) -> Message<'static> {
    Message::from_string(8, at(ms), text, parse).unwrap()
}

fn float(value: f32) -> Atom<'static> {
    Atom::Float(value.to_bits())
}

fn context() -> Context<'static> {
    Context::new(2, 2, 64, 44100.0f32.to_bits(), 1)
}

fn summary(deliveries: &[Delivery<'static>]) -> Vec<(usize, usize, f64, Vec<Atom<'static>>)> {
    deliveries
        .iter()
        .map(|d| {
            let atoms = (0..d.message.get_num_elements())
                .map(|i| d.message.get_element(i).unwrap())
                .collect();
            (
                d.object_id.0,
                d.inlet_index.0,
                f64::from_bits(d.message.get_timestamp().to_bits()),
                atoms,
            )
        })
        .collect()
}

fn order(context: &Context<'static>, graph_id: graph::Id) -> Vec<usize> {
    context
        .get_graph(graph_id)
        .unwrap()
        .get_process_order()
        .iter()
        .map(|id| id.0)
        .collect()
}

#[test]
fn new_context() {
    let context = context();
    assert_eq!(context.get_num_input_channels(), 2);
    assert_eq!(context.get_num_output_channels(), 2);
    assert_eq!(context.get_block_size(), 64);
    assert_eq!(context.get_sample_rate(), 44100.0f32.to_bits());
    assert_eq!(context.get_block_duration(), 1);
    assert_eq!(context.get_block_start_timestamp(), at(0.0));
    assert_eq!(context.get_global_dsp_buffer_at_inlet(0).len(), 128);
    assert_eq!(context.get_global_dsp_buffer_at_inlet(1).len(), 64);
    assert_eq!(context.get_global_dsp_buffer_at_outlet(2).len(), 0);
    assert!(context.has_room_for_object());
    assert!(context.has_room_for_graph());
    assert!(context.get_object(Id(0)).is_none());
    assert!(context.get_graph(graph::Id(0)).is_none());
}

#[test]
fn process_takes_input_and_clears_output() {
    let mut context = context();
    let input: Vec<u32> = (0..128).map(|i| (i as f32).to_bits()).collect();
    let mut output = vec![7u32; 3];
    let block = context.process(at(1.0), &input, &mut output);
    assert!(block.deliveries.is_empty());
    assert!(block.system_messages.is_empty());
    assert!(block.dsp_steps.is_empty());
    assert_eq!(output, vec![0u32; 128]);
    assert_eq!(context.get_global_dsp_buffer_at_inlet(0), &input[..]);
    assert_eq!(context.get_global_dsp_buffer_at_inlet(1), &input[64..]);
    assert_eq!(context.get_block_start_timestamp(), at(1.0));
}

#[test]
fn late_messages_are_delivered_at_the_block_start() {
    let mut context = context();
    let receiver = context.create_object(Type::UNKNOWN, 1, 0).ok().unwrap();
    let input = vec![0u32; 128];
    let mut output = Vec::new();
    // move on to the block from 10 to 11
    context.process(at(10.0), &input, &mut output);
    assert!(context.schedule_message(receiver, Index(0), message(3.0, "late")).is_ok());
    assert!(context.schedule_message(receiver, Index(0), message(10.25, "due")).is_ok());
    assert!(context.schedule_message(receiver, Index(0), message(-1.0, "later")).is_ok());
    assert!(context.schedule_message(receiver, Index(0), message(11.0, "next")).is_ok());
    assert!(context.schedule_message(receiver, Index(0), message(12.5, "far")).is_ok());
    let block = context.process(at(11.0), &input, &mut output);
    assert_eq!(
        summary(&block.deliveries),
        vec![
            (0, 0, 10.0, vec![Atom::Symbol("later")]),
            (0, 0, 10.0, vec![Atom::Symbol("late")]),
            (0, 0, 10.25, vec![Atom::Symbol("due")]),
        ]
    );
    let block = context.process(at(12.0), &input, &mut output);
    assert_eq!(
        summary(&block.deliveries),
        vec![(0, 0, 11.0, vec![Atom::Symbol("next")])]
    );
    let block = context.process(at(13.0), &input, &mut output);
    assert_eq!(
        summary(&block.deliveries),
        vec![(0, 0, 12.5, vec![Atom::Symbol("far")])]
    );
    let block = context.process(at(14.0), &input, &mut output);
    assert!(block.deliveries.is_empty());
}

#[test]
fn scheduled_messages_are_distributed_on_delivery() {
    let mut context = context();
    let receiver = context.create_object(Type::UNKNOWN, 3, 0).ok().unwrap();
    context.schedule_message(receiver, Index(0), message(0.5, "1 ;2 ;3")).unwrap();
    let mut output = Vec::new();
    let block = context.process(at(1.0), &vec![0u32; 128], &mut output);
    assert_eq!(
        summary(&block.deliveries),
        vec![
            (0, 2, 0.5, vec![float(3.0)]),
            (0, 1, 0.5, vec![float(2.0)]),
            (0, 0, 0.5, vec![float(1.0)]),
        ]
    );
}

#[test]
fn scheduling_needs_a_target_and_room() {
    let mut context = context();
    assert_eq!(
        context
            .schedule_message(Id(0), Index(0), message(0.0, "x"))
            .err()
            .unwrap()
            .kind(),
        ErrorKind::IndexOutOfBounds
    );
    assert_eq!(
        context
            .schedule_message(Id(SEND_CONTROLLER_ID), Index(0), message(0.0, "x"))
            .err()
            .unwrap()
            .kind(),
        ErrorKind::IndexOutOfBounds
    );
    let receiver = context.create_object(Type::UNKNOWN, 1, 0).ok().unwrap();
    for _ in 0..64 {
        assert!(context.schedule_message(receiver, Index(0), message(0.0, "x")).is_ok());
    }
    assert_eq!(
        context
            .schedule_message(receiver, Index(0), message(0.0, "x"))
            .err()
            .unwrap()
            .kind(),
        ErrorKind::BufferOverflow
    );
    let mut output = Vec::new();
    let block = context.process(at(1.0), &vec![0u32; 128], &mut output);
    assert_eq!(block.deliveries.len(), 64);
}

#[test]
fn cancelled_messages_are_not_delivered() {
    let mut context = context();
    let receiver = context.create_object(Type::UNKNOWN, 1, 0).ok().unwrap();
    context.schedule_message(receiver, Index(0), message(0.25, "keep")).unwrap();
    context.schedule_message(receiver, Index(0), message(0.5, "drop")).unwrap();
    context.cancel_message(receiver, Index(0), &message(0.5, "drop"));
    context.cancel_message(receiver, Index(0), &message(0.5, "never"));
    let mut output = Vec::new();
    let block = context.process(at(1.0), &vec![0u32; 128], &mut output);
    assert_eq!(
        summary(&block.deliveries),
        vec![(0, 0, 0.25, vec![Atom::Symbol("keep")])]
    );
    // what was delivered can be cancelled to no effect
    context.cancel_message(receiver, Index(0), &message(0.25, "keep"));
    let block = context.process(at(2.0), &vec![0u32; 128], &mut output);
    assert!(block.deliveries.is_empty());
}

#[test]
fn external_messages_go_to_the_named_receivers() {
    let mut context = context();
    let first = context.create_object(Type::MESSAGE_RECEIVE, 1, 1).ok().unwrap();
    let second = context.create_object(Type::MESSAGE_RECEIVE, 2, 1).ok().unwrap();
    assert!(context
        .register_remote_message_receiver(RemoteMessageReceiver::new("tempo", first))
        .is_ok());
    assert!(context
        .register_remote_message_receiver(RemoteMessageReceiver::new("tempo", second))
        .is_ok());
    assert_eq!(
        context
            .register_remote_message_receiver(RemoteMessageReceiver::new("tempo", Id(9)))
            .err()
            .unwrap()
            .kind(),
        ErrorKind::IndexOutOfBounds
    );
    assert!(context
        .schedule_external_message_string("tempo", at(0.5), "120 ;bpm", parse)
        .is_ok());
    assert!(context
        .schedule_external_message_string("nobody", at(0.5), "1", parse)
        .is_ok());
    assert!(context.schedule_external_message("tempo", &message(0.25, "go")).is_ok());
    let mut output = Vec::new();
    let block = context.process(at(1.0), &vec![0u32; 128], &mut output);
    assert_eq!(
        summary(&block.deliveries),
        vec![
            (0, 0, 0.25, vec![Atom::Symbol("go")]),
            (1, 0, 0.25, vec![Atom::Symbol("go")]),
            (0, 0, 0.5, vec![float(120.0), Atom::Symbol("bpm")]),
            (1, 1, 0.5, vec![Atom::Symbol("bpm")]),
            (1, 0, 0.5, vec![float(120.0)]),
        ]
    );
    let direct = context.send_message_to_named_receivers("tempo", &message(3.0, "now"));
    assert_eq!(direct.len(), 2);
    assert!(context
        .send_message_to_named_receivers("nobody", &message(3.0, "now"))
        .is_empty());
    assert_eq!(context.send_controller().get_name_index("tempo"), Some(Index(0)));
}

#[test]
fn external_message_string_overflows() {
    let mut context = context();
    let tokens: Vec<String> = (0..33).map(|i| i.to_string()).collect();
    let long: &'static str = Box::leak(tokens.join(" ;").into_boxed_str());
    assert_eq!(
        context
            .schedule_external_message_string("pd", at(0.0), long, parse)
            .err()
            .unwrap()
            .kind(),
        ErrorKind::BufferOverflow
    );
    let fits: &'static str = Box::leak(tokens[..32].join(" ;").into_boxed_str());
    assert!(context
        .schedule_external_message_string("pd", at(0.0), fits, parse)
        .is_ok());
}

#[test]
fn system_messages_come_back_to_the_host() {
    let mut context = context();
    assert!(context
        .schedule_external_message_string("pd", at(0.5), "dsp ;1", parse)
        .is_ok());
    assert!(context
        .schedule_message(
            Id(SEND_CONTROLLER_ID),
            Index(SYSTEM_NAME_INDEX),
            message(-3.0, "dsp ;0")
        )
        .is_ok());
    let mut output = Vec::new();
    let block = context.process(at(1.0), &vec![0u32; 128], &mut output);
    assert!(block.deliveries.is_empty());
    assert_eq!(block.system_messages.len(), 2);
    assert_eq!(block.system_messages[0].get_timestamp(), at(0.0));
    assert_eq!(
        context.receive_system_message(&block.system_messages[0]),
        SystemCommand::Dsp(false)
    );
    assert_eq!(block.system_messages[1].get_timestamp(), at(0.5));
    assert_eq!(
        context.receive_system_message(&block.system_messages[1]),
        SystemCommand::Dsp(true)
    );
    assert_eq!(
        context.receive_system_message(&message(0.0, "obj ;osc~")),
        SystemCommand::Object
    );
    assert_eq!(
        context.receive_system_message(&message(0.0, "dsp ;on")),
        SystemCommand::Unrecognised
    );
    assert_eq!(
        context.receive_system_message(&message(0.0, "dsp")),
        SystemCommand::Unrecognised
    );
    assert_eq!(
        context.receive_system_message(&message(0.0, "quit")),
        SystemCommand::Unrecognised
    );
}

#[test]
fn named_values() {
    let mut context = context();
    assert_eq!(context.get_value_for_name("gain"), None);
    assert!(context.set_value_for_name("gain", 0.5f32.to_bits()).is_ok());
    assert!(context.set_value_for_name("pan", (-1.0f32).to_bits()).is_ok());
    assert_eq!(context.get_value_for_name("gain"), Some(0.5f32.to_bits()));
    assert!(context.set_value_for_name("gain", 0.75f32.to_bits()).is_ok());
    assert_eq!(context.get_value_for_name("gain"), Some(0.75f32.to_bits()));
    assert_eq!(context.get_value_for_name("pan"), Some((-1.0f32).to_bits()));
    assert_eq!(context.get_value_for_name("gai"), None);
    let long = "a-name-of-more-than-thirty-two-bytes";
    assert_eq!(
        context.set_value_for_name(long, 0).err().unwrap().kind(),
        ErrorKind::BufferOverflow
    );
    assert_eq!(context.get_value_for_name(long), None);
    let names: Vec<String> = (0..30).map(|i| format!("v{}", i)).collect();
    for (i, name) in names.iter().enumerate() {
        assert!(context.set_value_for_name(name, i as u32).is_ok());
    }
    assert_eq!(
        context.set_value_for_name("one-more", 1).err().unwrap().kind(),
        ErrorKind::BufferOverflow
    );
    assert_eq!(
        context.set_value_for_name("gain", 1).err().unwrap().kind(),
        ErrorKind::BufferOverflow
    );
    assert_eq!(context.get_value_for_name("v29"), Some(29));
    assert_eq!(context.get_value_for_name("gain"), Some(0.75f32.to_bits()));
}

#[test]
fn external_receivers_of_the_context() {
    let mut context = context();
    assert!(context.register_external_receiver("scope").is_ok());
    assert!(context.send_controller().is_external_receiver("scope"));
    context.unregister_external_receiver("scope");
    assert!(!context.send_controller().is_external_receiver("scope"));
}

/// osc~ and delread~ feed +~, which feeds dac~ and delwrite~: the delay
/// line closes the loop by name, not by wire.
fn feedback_patch(context: &mut Context<'static>) -> graph::Id {
    let graph = context.create_graph();
    let osc = context.create_object(Type::DSP_COSINE, 1, 1).ok().unwrap();
    let add = context.create_object(Type::DSP_ADD, 2, 1).ok().unwrap();
    let dac = context.create_object(Type::DSP_DAC, 2, 0).ok().unwrap();
    let delwrite = context.create_object(Type::DSP_DELAY_WRITE, 1, 0).ok().unwrap();
    let delread = context.create_object(Type::DSP_DELAY_READ, 1, 1).ok().unwrap();
    let number = context.create_object(Type::UNKNOWN, 1, 1).ok().unwrap();
    for (i, id) in [osc, add, dac, delwrite, delread, number].iter().enumerate() {
        assert!(context.add_object(graph, (i as f32).to_bits(), 0, *id).is_ok());
    }
    let wires = [
        (number, 0, osc, 0),
        (osc, 0, add, 0),
        (delread, 0, add, 1),
        (add, 0, dac, 0),
        (add, 0, dac, 1),
        (add, 0, delwrite, 0),
    ];
    for (from, outlet, to, inlet) in wires {
        assert_eq!(
            context.add_connection(from, Index(outlet), to, Index(inlet)).ok(),
            Some(Connected::Made)
        );
    }
    graph
}

#[test]
fn process_order_puts_every_object_behind_what_feeds_it() {
    let mut context = context();
    let graph = feedback_patch(&mut context);
    assert!(order(&context, graph).is_empty());
    assert!(context.compute_process_order(graph).is_ok());
    // osc~ 0, +~ 1, dac~ 2, delwrite~ 3, delread~ 4; the number box 5
    // processes no audio
    assert_eq!(order(&context, graph), vec![0, 4, 1, 2, 3]);
    let computed = order(&context, graph);
    let place = |id: usize| computed.iter().position(|x| *x == id).unwrap();
    for (from, to) in [(0, 1), (4, 1), (1, 2), (1, 3)] {
        assert!(place(from) < place(to));
    }
}

#[test]
fn process_order_is_the_same_every_time() {
    let mut context = context();
    let graph = feedback_patch(&mut context);
    context.compute_process_order(graph).unwrap();
    let first = order(&context, graph);
    for _ in 0..3 {
        context.compute_process_order(graph).unwrap();
        assert_eq!(order(&context, graph), first);
    }
    let mut other = Context::new(2, 2, 64, 44100.0f32.to_bits(), 1);
    let other_graph = feedback_patch(&mut other);
    other.compute_process_order(other_graph).unwrap();
    assert_eq!(order(&other, other_graph), first);
}

#[test]
fn process_order_ends_at_a_cycle_of_wires() {
    let mut context = context();
    let graph = context.create_graph();
    let a = context.create_object(Type::DSP_ADD, 1, 1).ok().unwrap();
    let b = context.create_object(Type::DSP_ADD, 1, 1).ok().unwrap();
    let out = context.create_object(Type::DSP_DAC, 1, 0).ok().unwrap();
    for id in [a, b, out] {
        context.add_object(graph, 0, 0, id).unwrap();
    }
    context.add_connection(a, Index(0), b, Index(0)).unwrap();
    context.add_connection(b, Index(0), a, Index(0)).unwrap();
    context.add_connection(b, Index(0), out, Index(0)).unwrap();
    context.compute_process_order(graph).unwrap();
    assert_eq!(order(&context, graph), vec![0, 1, 2]);
}

#[test]
fn a_graph_without_leaves_has_no_process_order() {
    let mut context = context();
    let graph = context.create_graph();
    let a = context.create_object(Type::DSP_ADD, 1, 1).ok().unwrap();
    let b = context.create_object(Type::DSP_ADD, 1, 1).ok().unwrap();
    context.add_object(graph, 0, 0, a).unwrap();
    context.add_object(graph, 0, 0, b).unwrap();
    context.add_connection(a, Index(0), b, Index(0)).unwrap();
    context.add_connection(b, Index(0), a, Index(0)).unwrap();
    context.compute_process_order(graph).unwrap();
    assert!(order(&context, graph).is_empty());
}

#[test]
fn process_runs_the_process_order() {
    let mut context = context();
    let graph = feedback_patch(&mut context);
    context.compute_process_order(graph).unwrap();
    let mut output = Vec::new();
    let block = context.process(at(1.0), &vec![0u32; 128], &mut output);
    let expected: Vec<DspStep> = [0, 4, 1, 2, 3]
        .iter()
        .map(|id| DspStep { object_id: Id(*id), from_index: 0, to_index: 64 })
        .collect();
    assert_eq!(block.dsp_steps, expected);
    let steps = context.get_graph(graph).unwrap().process_function(8, 16);
    assert_eq!(steps[0], DspStep { object_id: Id(0), from_index: 8, to_index: 16 });
    assert_eq!(steps.len(), 5);
}

#[test]
fn connections_are_made_on_both_sides() {
    let mut context = context();
    let from = context.create_object(Type::UNKNOWN, 1, 1).ok().unwrap();
    let to = context.create_object(Type::UNKNOWN, 2, 1).ok().unwrap();
    assert_eq!(
        context.add_connection(from, Index(0), to, Index(1)).ok(),
        Some(Connected::Made)
    );
    assert_eq!(
        context
            .get_object(to)
            .unwrap()
            .get_incoming_connections(Index(1))
            .to_vec(),
        vec![Connection::new(from, Index(0))]
    );
    assert_eq!(
        context
            .get_object(from)
            .unwrap()
            .get_outgoing_connections(Index(0))
            .to_vec(),
        vec![Connection::new(to, Index(1))]
    );
    assert_eq!(
        context.add_connection(from, Index(1), to, Index(0)).ok(),
        Some(Connected::Mismatched)
    );
    assert_eq!(
        context.add_connection(from, Index(0), to, Index(2)).ok(),
        Some(Connected::Mismatched)
    );
    assert_eq!(
        context
            .add_connection(from, Index(0), Id(7), Index(0))
            .err()
            .unwrap()
            .kind(),
        ErrorKind::IndexOutOfBounds
    );
    for _ in 1..64 {
        assert!(context.add_connection(from, Index(0), to, Index(0)).is_ok());
    }
    assert_eq!(
        context
            .add_connection(from, Index(0), to, Index(0))
            .err()
            .unwrap()
            .kind(),
        ErrorKind::BufferOverflow
    );
    assert_eq!(
        context
            .get_object(to)
            .unwrap()
            .get_incoming_connections(Index(0))
            .len(),
        63
    );
}

#[test]
fn inlets_of_a_graph_stand_left_to_right() {
    let mut context = context();
    let graph = context.create_graph();
    let mut ids = Vec::new();
    for _ in 0..4 {
        ids.push(context.create_object(Type::MESSAGE_INLET, 0, 1).ok().unwrap());
    }
    let outlet = context.create_object(Type::DSP_OUTLET, 1, 0).ok().unwrap();
    let positions = [30.0f32, 10.0, 20.0, 10.0];
    for (id, x) in ids.iter().zip(positions.iter()) {
        context.add_object(graph, x.to_bits(), 0, *id).unwrap();
    }
    context.add_object(graph, 5.0f32.to_bits(), 0, outlet).unwrap();
    assert_eq!(
        context.add_object(graph, 0, 0, Id(20)).err().unwrap().kind(),
        ErrorKind::IndexOutOfBounds
    );
    assert_eq!(
        context.add_object(graph::Id(3), 0, 0, outlet).err().unwrap().kind(),
        ErrorKind::IndexOutOfBounds
    );
    let graph = context.get_graph(graph).unwrap();
    assert_eq!(graph.get_num_inlets(), 4);
    assert_eq!(graph.get_num_outlets(), 1);
    assert_eq!(
        graph.get_node_list().iter().map(|id| id.0).collect::<Vec<_>>(),
        vec![0, 1, 2, 3, 4]
    );
    assert_eq!(
        graph.get_inlet_list().iter().map(|id| id.0).collect::<Vec<_>>(),
        vec![1, 3, 2, 0]
    );
    assert_eq!(
        graph.get_outlet_list().iter().map(|id| id.0).collect::<Vec<_>>(),
        vec![4]
    );
    assert_eq!(
        context.get_object(Id(0)).unwrap().get_coordinates().x,
        30.0f32.to_bits()
    );
}

#[test]
fn objects_and_graphs_can_be_changed_in_place() {
    let mut context = context();
    let id = context.create_object(Type::UNKNOWN, 1, 1).ok().unwrap();
    context.get_object_mut(id).unwrap().set_ordered_flag();
    assert!(context.get_object(id).unwrap().is_ordered());
    assert!(context.get_object_mut(Id(5)).is_none());
    let graph = context.create_graph();
    assert!(!context.has_room_for_graph());
    assert!(context.get_graph_mut(graph).is_some());
    assert!(context.get_graph_mut(graph::Id(1)).is_none());
    assert_eq!(
        context.compute_process_order(graph::Id(1)).err().unwrap().kind(),
        ErrorKind::IndexOutOfBounds
    );
    assert_eq!(
        context
            .create_object(Type::UNKNOWN, 9, 0)
            .err()
            .unwrap()
            .kind(),
        ErrorKind::BufferOverflow
    );
    for _ in 1..32 {
        assert!(context.has_room_for_object());
        context.create_object(Type::UNKNOWN, 0, 0).ok().unwrap();
    }
    assert!(!context.has_room_for_object());
    assert_eq!(context.objects().lowest_free_slot(), None);
}

#[test]
fn send_forwards_to_its_name() {
    let mut context = context();
    let receiver = context.create_object(Type::MESSAGE_RECEIVE, 1, 1).ok().unwrap();
    context
        .register_remote_message_receiver(RemoteMessageReceiver::new("bus", receiver))
        .unwrap();
    let mut send = Send::new(&message(0.0, "bus"), graph::Id(0));
    assert_eq!(send.name(), "bus");
    assert_eq!(send.get_object_label(), "send");
    assert_eq!(Send::get_object_type(), Type::MESSAGE_SEND);
    assert_eq!(send.to_text(), "send bus");
    let deliveries = send.receive_message(&context, Index(0), &message(2.0, "hi"));
    assert_eq!(summary(&deliveries), vec![(0, 0, 2.0, vec![Atom::Symbol("hi")])]);
    assert!(send.receive_message(&context, Index(1), &message(0.0, "other")).is_empty());
    assert_eq!(send.name(), "other");
    assert!(send.receive_message(&context, Index(0), &message(2.0, "hi")).is_empty());
    assert!(send.receive_message(&context, Index(1), &message(0.0, "5")).is_empty());
    assert_eq!(send.name(), "other");
    assert!(send.receive_message(&context, Index(2), &message(0.0, "bus")).is_empty());
    assert_eq!(send.name(), "other");
    let unnamed = Send::new(&message(0.0, "1"), graph::Id(0));
    assert_eq!(unnamed.name(), "pz_default_sendreceive_name");
    assert_eq!(default_name(), "pz_default_sendreceive_name");
}

#[test]
fn connections_are_taken_away_on_both_sides() {
    let mut context = context();
    let from = context.create_object(Type::UNKNOWN, 1, 1).ok().unwrap();
    let to = context.create_object(Type::UNKNOWN, 2, 1).ok().unwrap();
    context.add_connection(from, Index(0), to, Index(0)).unwrap();
    context.add_connection(from, Index(0), to, Index(1)).unwrap();
    assert!(context.remove_connection(from, Index(0), to, Index(0)).is_ok());
    assert!(context.get_object(to).unwrap().get_incoming_connections(Index(0)).is_empty());
    assert_eq!(
        context.get_object(from).unwrap().get_outgoing_connections(Index(0)).to_vec(),
        vec![Connection::new(to, Index(1))]
    );
    for (a, o, b, i) in [
        (from, 0, to, 0),
        (to, 0, from, 0),
        (from, 1, to, 1),
        (from, 0, to, 2),
        (Id(9), 0, to, 1),
        (from, 0, Id(9), 1),
    ] {
        assert_eq!(
            context
                .remove_connection(a, Index(o), b, Index(i))
                .err()
                .unwrap()
                .kind(),
            ErrorKind::IndexOutOfBounds
        );
    }
    assert!(context.remove_connection(from, Index(0), to, Index(1)).is_ok());
    assert!(context.get_object(from).unwrap().is_leaf_node());
}

#[test]
fn removing_an_object_takes_its_connections_away_everywhere() {
    let mut context = context();
    let graph = feedback_patch(&mut context);
    context.compute_process_order(graph).unwrap();
    // +~ is object 1
    assert!(context.remove_object(graph, Id(1)).is_ok());
    for id in 0..6 {
        let object = context.get_object(Id(id)).unwrap();
        for inlet in 0..object.get_num_inlets() {
            for connection in object.get_incoming_connections(Index(inlet)).to_vec() {
                assert_ne!(connection.object_id(), Id(1));
                assert_ne!(id, 1);
            }
        }
        for outlet in 0..object.get_num_outlets() {
            for connection in object.get_outgoing_connections(Index(outlet)).to_vec() {
                assert_ne!(connection.object_id(), Id(1));
                assert_ne!(id, 1);
            }
        }
    }
    // the wire from the number box to osc~ is still there
    assert_eq!(
        context.get_object(Id(0)).unwrap().get_incoming_connections(Index(0)).to_vec(),
        vec![Connection::new(Id(5), Index(0))]
    );
    let graph_now = context.get_graph(graph).unwrap();
    assert_eq!(
        graph_now.get_node_list().iter().map(|id| id.0).collect::<Vec<_>>(),
        vec![0, 2, 3, 4, 5]
    );
    assert_eq!(order(&context, graph), vec![0, 4, 2, 3]);
    context.compute_process_order(graph).unwrap();
    // every object that is left is a leaf now but the number box
    assert_eq!(order(&context, graph), vec![0, 2, 3, 4]);
    assert_eq!(
        context.remove_object(graph, Id(30)).err().unwrap().kind(),
        ErrorKind::IndexOutOfBounds
    );
    assert_eq!(
        context.remove_object(graph::Id(2), Id(0)).err().unwrap().kind(),
        ErrorKind::IndexOutOfBounds
    );
}

#[test]
fn a_graph_has_the_connections_of_its_inlets_and_outlets() {
    let mut context = context();
    let graph = context.create_graph();
    let source = context.create_object(Type::UNKNOWN, 0, 1).ok().unwrap();
    let inlet = context.create_object(Type::MESSAGE_INLET, 1, 1).ok().unwrap();
    let outlet = context.create_object(Type::DSP_OUTLET, 1, 1).ok().unwrap();
    let sink = context.create_object(Type::UNKNOWN, 1, 0).ok().unwrap();
    let plain = context.create_object(Type::UNKNOWN, 1, 1).ok().unwrap();
    context.add_object(graph, 0, 0, inlet).unwrap();
    context.add_object(graph, 0, 0, outlet).unwrap();
    context.add_object(graph, 0, 0, plain).unwrap();
    context.add_connection(source, Index(0), inlet, Index(0)).unwrap();
    context.add_connection(outlet, Index(0), sink, Index(0)).unwrap();
    let the_graph = context.get_graph(graph).unwrap();
    assert_eq!(
        the_graph.get_incoming_connections(context.objects(), Index(0)),
        vec![Connection::new(source, Index(0))]
    );
    assert!(the_graph.get_incoming_connections(context.objects(), Index(1)).is_empty());
    assert_eq!(
        the_graph.get_outgoing_connections(context.objects(), Index(0)),
        vec![Connection::new(sink, Index(0))]
    );
    assert!(the_graph.get_outgoing_connections(context.objects(), Index(3)).is_empty());
    assert!(the_graph
        .send_message_to_named_receivers(&context, "nobody", &message(0.0, "x"))
        .is_empty());
}
