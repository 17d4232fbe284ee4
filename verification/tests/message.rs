use purezen::error::ErrorKind;
use purezen::message::element;
use purezen::message::Timestamp;
use purezen::pd::message::{Atom, Message};

/// Example timestamp value
const TIMESTAMP: Timestamp = Timestamp(0);

fn parse(token: &str) -> Option<u32> {
    token.parse::<f32>().ok().map(f32::to_bits)
}

fn write(bits: u32) -> String {
    format!("{}", f32::from_bits(bits))
}

fn float(value: f32) -> Atom<'static> {
    Atom::Float(value.to_bits())
}

#[test]
fn from_timestamp() {
    let message = Message::from_timestamp(1, TIMESTAMP);

    assert_eq!(message.get_timestamp(), TIMESTAMP);
    assert_eq!(message.get_num_elements(), 1);
    assert_eq!(message.get_element(0).unwrap(), Atom::Bang);
}

#[test]
fn from_string_containing_float() {
    let message = Message::from_string(1, TIMESTAMP, "3.14", parse).unwrap();

    assert_eq!(message.get_timestamp(), TIMESTAMP);
    assert_eq!(message.get_num_elements(), 1);
    assert_eq!(message.get_element(0).unwrap(), float(3.14));
}

#[test]
fn from_string_containing_bang() {
    for bang in &["!", "bang"] {
        let message = Message::from_string(1, TIMESTAMP, bang, parse).unwrap();

        assert_eq!(message.get_timestamp(), TIMESTAMP);
        assert_eq!(message.get_num_elements(), 1);
        assert_eq!(message.get_element(0).unwrap(), Atom::Bang);
    }
}

#[test]
fn from_string_containing_symbol() {
    for symbol in &["float", "list", "symbol"] {
        let message = Message::from_string(1, TIMESTAMP, symbol, parse).unwrap();

        assert_eq!(message.get_timestamp(), TIMESTAMP);
        assert_eq!(message.get_num_elements(), 1);
        assert_eq!(message.get_element(0).unwrap(), Atom::Symbol(symbol));
    }
}

#[test]
fn from_string_empty() {
    let message = Message::from_string(1, TIMESTAMP, "", parse).unwrap();

    assert_eq!(message.get_timestamp(), TIMESTAMP);
    assert_eq!(message.get_num_elements(), 1);
    assert_eq!(message.get_element(0).unwrap(), Atom::Bang);
}

#[test]
fn from_string_multi_float() {
    let message = Message::from_string(4, TIMESTAMP, "1 ;2 ;3 ;4", parse).unwrap();

    assert_eq!(message.get_timestamp(), TIMESTAMP);
    assert_eq!(message.get_num_elements(), 4);

    for i in 1..4 {
        assert_eq!(message.get_element(i - 1).unwrap(), float(i as f32))
    }
    assert_eq!(message.get_element(3).unwrap(), float(4.0));
}

#[test]
fn from_string_element_overflow() {
    assert_eq!(
        ErrorKind::BufferOverflow,
        Message::from_string(1, TIMESTAMP, "1 ;2 ;3 ;4", parse)
            .err()
            .unwrap()
            .kind()
    );
}

#[test]
fn to_string() {
    let message = Message::from_string(4, TIMESTAMP, "1 ;2 ;3 ;4", parse).unwrap();
    assert_eq!(message.to_text(write), "1 2 3 4");
}

#[test]
fn from_string_keeps_timestamp_and_capacity() {
    let ts = Timestamp(1250.5f64.to_bits());
    let message = Message::from_string(8, ts, "a ;1.5 ;!", parse).unwrap();
    assert_eq!(message.get_timestamp().to_bits(), 1250.5f64.to_bits());
    assert_eq!(message.capacity(), 8);
    assert_eq!(message.get_num_elements(), 3);
    assert_eq!(message.get_element(0).unwrap(), Atom::Symbol("a"));
    assert_eq!(message.get_element(1).unwrap(), float(1.5));
    assert_eq!(message.get_element(2).unwrap(), Atom::Bang);
    assert_eq!(message.get_element(3), None);
}

#[test]
fn from_string_exactly_at_capacity() {
    assert!(Message::from_string(4, TIMESTAMP, "1 ;2 ;3 ;4", parse).is_ok());
    assert!(Message::from_string(3, TIMESTAMP, "1 ;2 ;3 ;4", parse).is_err());
}

#[test]
fn from_string_trailing_delimiter_is_a_bang() {
    let message = Message::from_string(4, TIMESTAMP, "x ;", parse).unwrap();
    assert_eq!(message.get_num_elements(), 2);
    assert_eq!(message.get_element(0).unwrap(), Atom::Symbol("x"));
    assert_eq!(message.get_element(1).unwrap(), Atom::Bang);
}

#[test]
fn atom_of_token() {
    assert_eq!(Atom::from_token("7", Some(7.0f32.to_bits())), float(7.0));
    assert_eq!(Atom::from_token("bang", None), Atom::Bang);
    assert_eq!(Atom::from_token("!", None), Atom::Bang);
    assert_eq!(Atom::from_token("", None), Atom::Bang);
    assert_eq!(Atom::from_token("metro", None), Atom::Symbol("metro"));
}

#[test]
fn atom_equality_follows_ieee() {
    assert_eq!(float(0.0), float(-0.0));
    assert_ne!(float(f32::NAN), float(f32::NAN));
    assert_ne!(float(1.0), float(2.0));
    assert_ne!(Atom::Bang, Atom::Anything);
    assert_ne!(Atom::Symbol("a"), Atom::Symbol("b"));
    assert_eq!(Atom::Symbol("a"), Atom::Symbol("a"));
    assert_eq!(Atom::List, Atom::List);
}

#[test]
fn atom_queries() {
    let atom = float(2.5);
    assert_eq!(atom.get_type(), element::Type::FLOAT);
    assert_eq!(atom.get_float(), Some(2.5f32.to_bits()));
    assert_eq!(atom.get_symbol(), None);
    assert!(atom.is_float());
    assert!(!atom.is_bang() && !atom.is_symbol() && !atom.is_list() && !atom.is_anything());
    let symbol = Atom::Symbol("osc~");
    assert_eq!(symbol.get_type(), element::Type::SYMBOL);
    assert_eq!(symbol.get_symbol(), Some("osc~"));
    assert!(symbol.is_symbol_str("osc~"));
    assert!(!symbol.is_symbol_str("osc"));
    assert_eq!(Atom::Bang.get_type(), element::Type::BANG);
    assert_eq!(Atom::List.get_type(), element::Type::LIST);
    assert_eq!(Atom::Anything.get_type(), element::Type::ANYTHING);
}

#[test]
fn set_element_overwrites_appends_and_overflows() {
    let mut message = Message::from_timestamp(2, TIMESTAMP);
    assert!(message.set_float(0, 1.0f32.to_bits()).is_ok());
    assert_eq!(message.get_num_elements(), 1);
    assert!(message.set_symbol(1, "two").is_ok());
    assert_eq!(message.get_num_elements(), 2);
    assert_eq!(
        message.set_bang(2).err().unwrap().kind(),
        ErrorKind::BufferOverflow
    );
    assert_eq!(message.get_num_elements(), 2);
    assert!(message.set_anything(1).is_ok());
    assert_eq!(message.get_element(0).unwrap(), float(1.0));
    assert_eq!(message.get_element(1).unwrap(), Atom::Anything);
    assert!(message.set_list(0).is_ok());
    assert_eq!(message.get_element(0).unwrap(), Atom::List);
    assert!(message.set_element(0, Atom::Bang).is_ok());
    assert_eq!(message.get_element(0).unwrap(), Atom::Bang);
}

#[test]
fn resolve_symbols_to_type() {
    let mut message = Message::from_string(
        12,
        TIMESTAMP,
        "float ;f ;bang ;b ;list ;l ;anything ;a ;symbol ;s ;other ;3",
        parse,
    )
    .unwrap();
    message.resolve_symbols_to_type();
    let expected = [
        float(0.0),
        float(0.0),
        Atom::Bang,
        Atom::Bang,
        Atom::List,
        Atom::List,
        Atom::Anything,
        Atom::Anything,
        Atom::Symbol("symbol"),
        Atom::Symbol("s"),
        Atom::Anything,
        float(3.0),
    ];
    assert_eq!(message.get_num_elements(), expected.len());
    for (i, atom) in expected.iter().enumerate() {
        assert_eq!(message.get_element(i).unwrap(), *atom, "at {}", i);
    }
}

#[test]
fn has_format() {
    let message = Message::from_string(3, TIMESTAMP, "1 ;two ;!", parse).unwrap();
    assert!(message.has_format("fsb"));
    assert!(!message.has_format("fs"));
    assert!(!message.has_format("fsbf"));
    assert!(!message.has_format("sfb"));
    assert!(!message.has_format("fsx"));
    assert!(!message.has_format(""));
}

#[test]
fn element_queries_by_index() {
    let message = Message::from_string(3, TIMESTAMP, "1 ;two ;!", parse).unwrap();
    assert!(message.is_float(0) && !message.is_float(1) && !message.is_float(9));
    assert!(message.is_symbol(1) && !message.is_symbol(0));
    assert!(message.is_bang(2) && !message.is_bang(3));
    assert!(message.is_symbol_str(1, "two") && !message.is_symbol_str(1, "tw"));
    assert_eq!(message.get_type(0), element::Type::FLOAT);
    assert_eq!(message.get_type(7), element::Type::ANYTHING);
    assert_eq!(message.get_float(0), Some(1.0f32.to_bits()));
    assert_eq!(message.get_float(1), None);
    assert_eq!(message.get_symbol(1), Some("two"));
    assert_eq!(message.get_symbol(0), None);
    assert!(message.atom_is_equal_to(0, &float(1.0)));
    assert!(!message.atom_is_equal_to(0, &float(2.0)));
    assert!(!message.atom_is_equal_to(5, &float(1.0)));
}

#[test]
fn set_timestamp() {
    let mut message = Message::from_timestamp(1, TIMESTAMP);
    message.set_timestamp(Timestamp(42.0f64.to_bits()));
    assert_eq!(message.get_timestamp(), Timestamp(42.0f64.to_bits()));
    assert_eq!(message.get_num_elements(), 1);
}

#[test]
fn singleton_constructors() {
    let ts = Timestamp(5.0f64.to_bits());
    let bang = Message::from_timestamp_and_bang(ts);
    assert_eq!(bang.get_element(0).unwrap(), Atom::Bang);
    assert_eq!(bang.capacity(), 1);
    let number = Message::from_timestamp_and_float(ts, 9.5f32.to_bits());
    assert_eq!(number.get_element(0).unwrap(), float(9.5));
    assert_eq!(number.get_timestamp(), ts);
    let symbol = Message::from_timestamp_and_symbol(ts, "hello");
    assert_eq!(symbol.get_element(0).unwrap(), Atom::Symbol("hello"));
    let atom = Message::from_timestamp_and_atom(ts, Atom::Anything);
    assert_eq!(atom.get_element(0).unwrap(), Atom::Anything);
    assert_eq!(atom.get_num_elements(), 1);
}

#[test]
fn message_equality() {
    let a = Message::from_string(4, TIMESTAMP, "1 ;x", parse).unwrap();
    let b = Message::from_string(2, Timestamp((-0.0f64).to_bits()), "1.0 ;x", parse).unwrap();
    let c = Message::from_string(4, TIMESTAMP, "1 ;y", parse).unwrap();
    let d = Message::from_string(4, Timestamp(1.0f64.to_bits()), "1 ;x", parse).unwrap();
    let e = Message::from_string(4, TIMESTAMP, "1", parse).unwrap();
    let nan = Message::from_string(4, TIMESTAMP, "NaN", parse).unwrap();
    assert!(a.is_equal_to(&b));
    assert!(!a.is_equal_to(&c));
    assert!(!a.is_equal_to(&d));
    assert!(!a.is_equal_to(&e));
    assert!(!nan.is_equal_to(&nan));
    let copy = a.clone();
    assert!(copy.is_equal_to(&a));
    assert_eq!(copy.capacity(), 4);
}

#[test]
fn render_atoms_one_by_one() {
    let message = Message::from_string(5, TIMESTAMP, "1.5 ;sym ;!", parse).unwrap();
    let mut with_placeholders = message.clone();
    with_placeholders.set_anything(3).unwrap();
    with_placeholders.set_list(4).unwrap();
    let texts = with_placeholders.render_atoms(&write);
    assert_eq!(texts, vec!["1.5", "sym", "bang", "", ""]);
    assert_eq!(with_placeholders.to_text(write), "1.5 sym bang  ");
    assert_eq!(Message::render_atom(float(-2.0), &write), "-2");
}

#[test]
fn resolve_string_without_arguments_copies() {
    let mut buffer = String::from("> ");
    let r = Message::resolve_string("osc~ \\$1", None, 0, &mut buffer, write);
    assert!(r.is_ok());
    assert_eq!(buffer, "> osc~ \\$1");
}

#[test]
fn resolve_string_substitutes_arguments() {
    let arguments = Message::from_string(4, TIMESTAMP, "440 ;sine ;!", parse).unwrap();
    let mut buffer = String::new();
    let r = Message::resolve_string(
        "osc~ \\$1 named \\$2-x end",
        Some(&arguments),
        1,
        &mut buffer,
        write,
    );
    assert!(r.is_ok());
    assert_eq!(buffer, "osc~ 440 named sine-x end");
}

#[test]
fn resolve_string_with_zero_offset() {
    let arguments = Message::from_string(4, TIMESTAMP, "7 ;a", parse).unwrap();
    let mut buffer = String::new();
    let r = Message::resolve_string("\\$0-\\$1", Some(&arguments), 0, &mut buffer, write);
    assert!(r.is_ok());
    assert_eq!(buffer, "7-a");
}

#[test]
fn resolve_string_skips_what_is_neither_float_nor_symbol() {
    let arguments = Message::from_string(4, TIMESTAMP, "! ;b", parse).unwrap();
    let mut buffer = String::new();
    let r = Message::resolve_string("x \\$0 rest \\$1.", Some(&arguments), 0, &mut buffer, write);
    assert!(r.is_ok());
    assert_eq!(buffer, "x b.");
}

#[test]
fn resolve_string_index_out_of_bounds() {
    let arguments = Message::from_string(4, TIMESTAMP, "1 ;2", parse).unwrap();
    let mut buffer = String::new();
    let r = Message::resolve_string("a \\$1 b \\$3 c", Some(&arguments), 1, &mut buffer, write);
    assert_eq!(r.err().unwrap().kind(), ErrorKind::IndexOutOfBounds);
    assert_eq!(buffer, "a 1 b ");

    let mut buffer = String::new();
    let r = Message::resolve_string("a \\$0", Some(&arguments), 1, &mut buffer, write);
    assert_eq!(r.err().unwrap().kind(), ErrorKind::IndexOutOfBounds);
    assert_eq!(buffer, "a ");
}

#[test]
fn argument_templates() {
    assert!(Message::is_argument_template("plain"));
    assert!(Message::is_argument_template("a \\$1 b \\$2"));
    assert!(!Message::is_argument_template("a \\$x"));
    assert!(!Message::is_argument_template("a \\$"));
    assert!(Message::is_argument_template("a $ b"));
}
