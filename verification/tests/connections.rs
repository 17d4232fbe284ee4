use purezen::error::{Error, ErrorKind};
use purezen::list::List as EntryList;
use purezen::message::object::connection::{Connection, Index, List, Table, Type};
use purezen::message::object::Id;
use purezen::message::queue::{ObjectMessageEntry, OrderedQueue};
use purezen::message::Timestamp;
use purezen::pd::message::{Atom, Message};

fn parse(token: &str) -> Option<u32> {
    token.parse::<f32>().ok().map(f32::to_bits)
}

fn at(ms: f64) -> Timestamp {
    Timestamp(ms.to_bits())
}

fn message(ms: f64, text: &'static str) -> Message<'static> {
    Message::from_string(8, at(ms), text, parse).unwrap()
}

fn connection(object: usize, index: usize) -> Connection {
    Connection::new(Id(object), Index(index))
}

fn stamps(queue: &mut OrderedQueue<'static>) -> Vec<(f64, usize)> {
    let mut out = Vec::new();
    while let Some(entry) = queue.pop() {
        out.push((
            f64::from_bits(entry.second.first.get_timestamp().to_bits()),
            entry.first.0,
        ));
    }
    out
}

#[test]
fn error_kinds_and_texts() {
    let error: Error = ErrorKind::IndexOutOfBounds.into();
    assert_eq!(error.kind(), ErrorKind::IndexOutOfBounds);
    assert_eq!(error.as_str(), "index out of bounds");
    assert_eq!(Error::new(ErrorKind::BufferOverflow).as_str(), "buffer overflow");
    assert_eq!(ErrorKind::ParseError.as_str(), "parse error");
    assert_eq!(Error::new(ErrorKind::ParseError), Error::from(ErrorKind::ParseError));
    assert_ne!(Error::new(ErrorKind::ParseError), Error::new(ErrorKind::BufferOverflow));
}

#[test]
fn connection_fields() {
    let c = connection(3, 1);
    assert_eq!(c.object_id(), Id(3));
    assert_eq!(c.index(), Index(1));
    assert_eq!(c, Connection { first: Id(3), second: Index(1) });
    assert_ne!(c, connection(3, 2));
    assert_ne!(Type::DSP, Type::MESSAGE);
    assert_eq!(Index::from(5), Index(5));
    assert_eq!(Id::from(7), Id(7));
    assert_eq!(usize::from(Id(7)), 7);
}

#[test]
fn connection_list_push_and_overflow() {
    let mut list = List::new();
    assert!(list.is_empty());
    for i in 0..64 {
        assert!(list.push_back(connection(i, 0)).is_ok());
    }
    assert_eq!(list.len(), 64);
    assert_eq!(
        list.push_back(connection(64, 0)).err().unwrap().kind(),
        ErrorKind::BufferOverflow
    );
    assert_eq!(list.len(), 64);
    assert_eq!(list.get(63), Some(connection(63, 0)));
    assert_eq!(list.get(64), None);
}

#[test]
fn connection_list_remove_swaps_in_the_last() {
    let mut list = List::new();
    for i in 0..4 {
        list.push_back(connection(i, i)).unwrap();
    }
    list.push_back(connection(1, 1)).unwrap();
    assert_eq!(list.position(connection(1, 1)), Some(1));
    assert!(list.remove(connection(1, 1)).is_ok());
    assert_eq!(
        list.to_vec(),
        vec![connection(0, 0), connection(1, 1), connection(2, 2), connection(3, 3)]
    );
    assert!(list.remove(connection(0, 0)).is_ok());
    assert_eq!(
        list.to_vec(),
        vec![connection(3, 3), connection(1, 1), connection(2, 2)]
    );
    assert!(list.remove(connection(2, 2)).is_ok());
    assert_eq!(list.to_vec(), vec![connection(3, 3), connection(1, 1)]);
    assert_eq!(list.position(connection(9, 9)), None);
    let copy = list.clone();
    assert_eq!(copy.to_vec(), list.to_vec());
}

#[test]
fn connection_table_lets() {
    let table = Table::new();
    assert!(table.is_empty());
    assert_eq!(table.len(), 0);
    let mut table = Table::with_lets(8).ok().unwrap();
    assert_eq!(table.len(), 8);
    assert!(table.all_empty());
    assert_eq!(
        Table::with_lets(9).err().unwrap().kind(),
        ErrorKind::BufferOverflow
    );
    assert_eq!(table.add_let().err().unwrap().kind(), ErrorKind::BufferOverflow);
    table.get_mut(Index(2)).push_back(connection(4, 0)).unwrap();
    assert_eq!(table.get(Index(2)).to_vec(), vec![connection(4, 0)]);
    assert!(table.get(Index(1)).is_empty());
    assert!(!table.all_empty());
    let mut small = Table::with_lets(0).ok().unwrap();
    assert!(small.add_let().is_ok());
    assert_eq!(small.len(), 1);
}

#[test]
fn entry_list_insert_and_remove() {
    let mut list = EntryList::new();
    assert!(list.is_empty());
    assert!(list.peek().is_none());
    assert!(list.pop().is_none());
    for i in 0..3 {
        let entry = ObjectMessageEntry::new(Id(i), Index(0), message(i as f64, "x"));
        assert!(list.append(entry).is_ok());
    }
    let entry = ObjectMessageEntry::new(Id(9), Index(0), message(9.0, "x"));
    assert!(list.insert_at(1, entry).is_ok());
    let ids: Vec<usize> = (0..list.len()).map(|i| list.get(i).unwrap().first.0).collect();
    assert_eq!(ids, vec![0, 9, 1, 2]);
    let entry = ObjectMessageEntry::new(Id(8), Index(0), message(8.0, "x"));
    assert!(list.insert_at(4, entry).is_ok());
    let entry = ObjectMessageEntry::new(Id(7), Index(0), message(7.0, "x"));
    assert!(list.insert_at(0, entry).is_ok());
    let ids: Vec<usize> = (0..list.len()).map(|i| list.get(i).unwrap().first.0).collect();
    assert_eq!(ids, vec![7, 0, 9, 1, 2, 8]);
    let entry = ObjectMessageEntry::new(Id(6), Index(0), message(6.0, "x"));
    assert_eq!(
        list.insert_at(7, entry).err().unwrap().kind(),
        ErrorKind::IndexOutOfBounds
    );
    assert_eq!(list.remove_at(2).ok().unwrap().first.0, 9);
    assert_eq!(list.remove_at(4).ok().unwrap().first.0, 8);
    assert_eq!(
        list.remove_at(4).err().unwrap().kind(),
        ErrorKind::IndexOutOfBounds
    );
    assert_eq!(list.peek().unwrap().first.0, 7);
    assert_eq!(list.pop().unwrap().first.0, 7);
    let ids: Vec<usize> = (0..list.len()).map(|i| list.get(i).unwrap().first.0).collect();
    assert_eq!(ids, vec![0, 1, 2]);
    assert!(list.get(3).is_none());
}

#[test]
fn entry_list_overflow() {
    let mut list = EntryList::new();
    for i in 0..64 {
        let entry = ObjectMessageEntry::new(Id(i), Index(0), message(0.0, "x"));
        assert!(list.push_back(entry).is_ok());
    }
    let entry = ObjectMessageEntry::new(Id(64), Index(0), message(0.0, "x"));
    assert_eq!(
        list.insert_at(3, entry).err().unwrap().kind(),
        ErrorKind::BufferOverflow
    );
    let entry = ObjectMessageEntry::new(Id(64), Index(0), message(0.0, "x"));
    assert_eq!(list.append(entry).err().unwrap().kind(), ErrorKind::BufferOverflow);
    assert_eq!(list.len(), 64);
    assert_eq!(list.get(3).unwrap().first.0, 3);
}

#[test]
fn queue_pops_in_time_order_and_first_in_first_out() {
    let mut queue = OrderedQueue::new();
    assert!(queue.is_empty());
    assert!(queue.peek().is_none());
    let times = [5.0, 1.0, 3.0, 1.0, 5.0, 0.5, 3.0, 1.0];
    for (i, t) in times.iter().enumerate() {
        assert!(queue.insert_message(Id(i), Index(0), message(*t, "x")).is_ok());
        let head = queue.peek().unwrap();
        let least = times[..=i].iter().cloned().fold(f64::INFINITY, f64::min);
        assert_eq!(f64::from_bits(head.second.first.get_timestamp().to_bits()), least);
    }
    assert_eq!(queue.len(), 8);
    assert_eq!(
        stamps(&mut queue),
        vec![
            (0.5, 5),
            (1.0, 1),
            (1.0, 3),
            (1.0, 7),
            (3.0, 2),
            (3.0, 6),
            (5.0, 0),
            (5.0, 4)
        ]
    );
    assert!(queue.is_empty());
    assert!(queue.pop().is_none());
}

#[test]
fn queue_orders_negative_times_and_zeros() {
    let mut queue = OrderedQueue::default();
    for (i, t) in [0.0, -1.0, -0.0, -2.5, 2.0].iter().enumerate() {
        queue.insert_message(Id(i), Index(0), message(*t, "x")).unwrap();
    }
    let order: Vec<usize> = stamps(&mut queue).iter().map(|e| e.1).collect();
    assert_eq!(order, vec![3, 1, 0, 2, 4]);
}

#[test]
fn queue_overflow() {
    let mut queue = OrderedQueue::new();
    for i in 0..64 {
        assert!(queue.insert_message(Id(i), Index(0), message(1.0, "x")).is_ok());
    }
    assert_eq!(
        queue
            .insert_message(Id(64), Index(0), message(0.0, "x"))
            .err()
            .unwrap()
            .kind(),
        ErrorKind::BufferOverflow
    );
    assert_eq!(queue.len(), 64);
    assert_eq!(queue.peek().unwrap().first.0, 0);
}

#[test]
fn cancellation_undoes_scheduling() {
    let mut queue = OrderedQueue::new();
    queue.insert_message(Id(1), Index(0), message(1.0, "a")).unwrap();
    queue.insert_message(Id(2), Index(1), message(2.0, "b")).unwrap();
    queue.insert_message(Id(3), Index(0), message(3.0, "c")).unwrap();
    queue.insert_message(Id(9), Index(4), message(2.0, "m ;1")).unwrap();
    assert_eq!(queue.len(), 4);
    queue.remove_message(Id(9), Index(4), &message(2.0, "m ;1"));
    assert_eq!(stamps(&mut queue), vec![(1.0, 1), (2.0, 2), (3.0, 3)]);
}

#[test]
fn cancellation_of_what_is_not_queued_changes_nothing() {
    let mut queue = OrderedQueue::new();
    queue.insert_message(Id(1), Index(0), message(1.0, "a")).unwrap();
    queue.insert_message(Id(2), Index(1), message(2.0, "b")).unwrap();
    queue.remove_message(Id(1), Index(1), &message(1.0, "a"));
    queue.remove_message(Id(2), Index(0), &message(1.0, "a"));
    queue.remove_message(Id(1), Index(0), &message(1.5, "a"));
    queue.remove_message(Id(1), Index(0), &message(1.0, "b"));
    queue.remove_message(Id(1), Index(0), &message(1.0, "a ;a"));
    assert_eq!(queue.len(), 2);
    assert_eq!(stamps(&mut queue), vec![(1.0, 1), (2.0, 2)]);
}

#[test]
fn cancellation_takes_the_first_of_equal_entries() {
    let mut queue = OrderedQueue::new();
    queue.insert_message(Id(1), Index(0), message(1.0, "a")).unwrap();
    queue.insert_message(Id(2), Index(0), message(1.0, "b")).unwrap();
    queue.insert_message(Id(1), Index(0), message(1.0, "a")).unwrap();
    queue.remove_message(Id(1), Index(0), &message(1.0, "a"));
    assert_eq!(stamps(&mut queue), vec![(1.0, 2), (1.0, 1)]);
}

#[test]
fn a_message_with_a_nan_is_never_cancelled() {
    let mut queue = OrderedQueue::new();
    queue.insert_message(Id(1), Index(0), message(1.0, "NaN")).unwrap();
    queue.remove_message(Id(1), Index(0), &message(1.0, "NaN"));
    assert_eq!(queue.len(), 1);
    let entry = queue.pop().unwrap();
    match entry.second.first.get_element(0).unwrap() {
        Atom::Float(bits) => assert!(f32::from_bits(bits).is_nan()),
        other => panic!("unexpected atom {:?}", other),
    }
}

#[test]
fn connection_list_without_an_object() {
    let mut list = List::new();
    for (object, index) in [(1, 0), (2, 0), (1, 1), (3, 0), (1, 0), (4, 2)] {
        list.push_back(connection(object, index)).unwrap();
    }
    list.remove_object(Id(1));
    assert_eq!(
        list.to_vec(),
        vec![connection(2, 0), connection(3, 0), connection(4, 2)]
    );
    list.remove_object(Id(9));
    assert_eq!(list.len(), 3);
    list.remove_object(Id(4));
    assert_eq!(list.to_vec(), vec![connection(2, 0), connection(3, 0)]);
    list.clear();
    assert!(list.is_empty());
    list.clear();
    list.remove_object(Id(2));
    assert!(list.is_empty());
    let mut table = Table::with_lets(2).ok().unwrap();
    table.get_mut(Index(0)).push_back(connection(1, 0)).unwrap();
    table.get_mut(Index(1)).push_back(connection(2, 0)).unwrap();
    table.get_mut(Index(1)).push_back(connection(1, 0)).unwrap();
    table.remove_object(Id(1));
    assert!(table.get(Index(0)).is_empty());
    assert_eq!(table.get(Index(1)).to_vec(), vec![connection(2, 0)]);
    table.clear_connections();
    assert!(table.all_empty());
    assert_eq!(table.len(), 2);
}

#[test]
fn entries_and_messages_compare_by_what_they_hold() {
    assert_eq!(message(1.0, "a ;1"), message(1.0, "a ;1.0"));
    assert_ne!(message(1.0, "a ;1"), message(1.0, "a ;2"));
    assert_ne!(message(1.0, "a"), message(2.0, "a"));
    assert_ne!(message(1.0, "nan"), message(1.0, "nan"));
    let entry = ObjectMessageEntry::new(Id(1), Index(2), message(1.0, "a"));
    assert_eq!(entry, ObjectMessageEntry::new(Id(1), Index(2), message(1.0, "a")));
    assert_ne!(entry, ObjectMessageEntry::new(Id(2), Index(2), message(1.0, "a")));
    assert_ne!(entry, ObjectMessageEntry::new(Id(1), Index(1), message(1.0, "a")));
    assert_ne!(entry, ObjectMessageEntry::new(Id(1), Index(2), message(1.0, "b")));
    assert_eq!(entry.second, ObjectMessageEntry::new(Id(5), Index(2), message(1.0, "a")).second);
}
