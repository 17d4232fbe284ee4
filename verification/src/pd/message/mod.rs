//! Pure Data messages

pub mod atom;

pub use atom::Atom;

use crate::error::{Error, ErrorKind};
use crate::message::element;
use crate::message::Timestamp;
use crate::utils::{joined, split, split_pieces};
use atom::atoms_equal;
use vstd::prelude::*;
use vstd::string::*;

verus! {

/// The most atoms that any message can hold
pub const MAX_ATOMS: usize = 64;

/// The storage of a message: a `heapless::Vec` of fixed capacity.
#[verifier::external_body]
#[derive(Debug)]
pub struct AtomBuf<'pd> {
    inner: heapless::Vec<Atom<'pd>, heapless::consts::U64>,
}

/// The atoms that a buffer holds, first to last
pub uninterp spec fn atoms_held(buf: AtomBuf) -> Seq<Atom>;

/// `heapless::Vec::new`: the new vector holds nothing.
#[verifier::external_body]
fn buf_new<'pd>() -> (buf: AtomBuf<'pd>)
    ensures
        atoms_held(buf) == Seq::<Atom>::empty(),
{
    AtomBuf { inner: heapless::Vec::new() }
}

/// `heapless::Vec::push`: below capacity the item is appended; at capacity
/// nothing changes and the item comes back.
#[verifier::external_body]
fn buf_push<'pd>(buf: &mut AtomBuf<'pd>, item: Atom<'pd>) -> (r: Result<(), Atom<'pd>>)
    ensures
        r is Ok <==> atoms_held(*old(buf)).len() < MAX_ATOMS,
        r is Ok ==> atoms_held(*final(buf)) == atoms_held(*old(buf)).push(item),
        r is Err ==> atoms_held(*final(buf)) == atoms_held(*old(buf)) && r->Err_0 == item,
{
    buf.inner.push(item)
}

/// `len` of the slice that a `heapless::Vec` derefs to: the number of items.
#[verifier::external_body]
fn buf_len(buf: &AtomBuf) -> (n: usize)
    ensures
        n == atoms_held(*buf).len(),
{
    buf.inner.len()
}

/// Indexing the slice that a `heapless::Vec` derefs to: the item at `i`.
#[verifier::external_body]
fn buf_get<'pd>(buf: &AtomBuf<'pd>, i: usize) -> (atom: Atom<'pd>)
    requires
        i < atoms_held(*buf).len(),
    ensures
        atom == atoms_held(*buf)[i as int],
{
    buf.inner[i]
}

/// Assigning through the mutable index of the slice that a `heapless::Vec`
/// derefs to: the item at `i` is replaced, the others stay.
#[verifier::external_body]
fn buf_set<'pd>(buf: &mut AtomBuf<'pd>, i: usize, atom: Atom<'pd>)
    requires
        i < atoms_held(*old(buf)).len(),
    ensures
        atoms_held(*final(buf)) == atoms_held(*old(buf)).update(i as int, atom),
{
    buf.inner[i] = atom;
}

/// `Clone` of a `heapless::Vec`: the copy holds the same items.
#[verifier::external_body]
fn buf_clone<'pd>(buf: &AtomBuf<'pd>) -> (copy: AtomBuf<'pd>)
    ensures
        atoms_held(copy) == atoms_held(*buf),
{
    AtomBuf { inner: buf.inner.clone() }
}

/// Pure Data messages
///
/// <https://puredata.info/dev/PdMessages>
#[derive(Debug)]
pub struct Message<'pd> {
    /// Message timestamp
    timestamp: Timestamp,
    /// The number of atoms that this message can hold
    capacity: usize,
    /// Atoms in the message
    atoms: AtomBuf<'pd>,
}

impl<'pd> View for Message<'pd> {
    type V = Seq<Atom<'pd>>;

    closed spec fn view(&self) -> Seq<Atom<'pd>> {
        atoms_held(self.atoms)
    }
}

/// Are two sequences of atoms of one length, and equal atom by atom?
pub open spec fn all_atoms_equal(a: Seq<Atom>, b: Seq<Atom>) -> bool {
    &&& a.len() == b.len()
    &&& forall|i: int| 0 <= i < a.len() ==> atoms_equal(#[trigger] a[i], b[i])
}

/// The atom that takes the place of `atom` when symbols that name a type
/// are resolved: `symbol`/`s` stays a symbol, `anything`/`a` becomes the
/// anything placeholder, `bang`/`b` a bang, `float`/`f` the float zero,
/// `list`/`l` a list, and any other symbol the anything placeholder. An
/// atom that is no symbol stays.
pub open spec fn resolved_type<'pd>(atom: Atom<'pd>) -> Atom<'pd> {
    match atom {
        Atom::Symbol(s) => if s@ == "symbol"@ || s@ == "s"@ {
            atom
        } else if s@ == "anything"@ || s@ == "a"@ {
            Atom::Anything
        } else if s@ == "bang"@ || s@ == "b"@ {
            Atom::Bang
        } else if s@ == "float"@ || s@ == "f"@ {
            Atom::Float(0)
        } else if s@ == "list"@ || s@ == "l"@ {
            Atom::List
        } else {
            Atom::Anything
        },
        _ => atom,
    }
}

/// Does the atom have the type that a character of a format stands for?
/// `f` is a float, `s` a symbol, `b` a bang; no other character matches.
pub open spec fn matches_format(atom: Atom, c: char) -> bool {
    ||| c == 'f' && atom is Float
    ||| c == 's' && atom is Symbol
    ||| c == 'b' && atom is Bang
}

/// Does `atom` read the token `text`, where `parsed` is the value of the
/// token as a number, if it reads as one? A number is a float of that
/// value; `!`, `bang` and the empty token are a bang; any other token is a
/// symbol of the same text.
pub open spec fn atom_reads(atom: Atom, text: Seq<char>, parsed: Option<u32>) -> bool {
    match parsed {
        Some(value) => atom == Atom::Float(value),
        None => if text == "!"@ || text == "bang"@ || text == ""@ {
            atom == Atom::Bang
        } else {
            atom is Symbol && atom->Symbol_0@ == text
        },
    }
}

/// Is `atom` what the token `text` stands for, with `parse` as the reader
/// of numbers?
pub open spec fn token_atom<F: Fn(&str) -> Option<u32>>(
    parse: F,
    text: Seq<char>,
    atom: Atom,
) -> bool {
    exists|token: &str, parsed: Option<u32>|
        token@ == text && #[trigger] call_ensures(parse, (token,), parsed) && atom_reads(
            atom,
            text,
            parsed,
        )
}

/// Is `text` the written form of `atom`, with `format_float` as the writer
/// of numbers? A bang is written `bang`, a float as the writer gives it, a
/// symbol as its text, and the other atoms as nothing.
pub open spec fn atom_renders<F: Fn(u32) -> String>(
    format_float: F,
    atom: Atom,
    text: Seq<char>,
) -> bool {
    match atom {
        Atom::Bang => text == "bang"@,
        Atom::Float(value) => exists|written: String| #[trigger]
            call_ensures(format_float, (value,), written) && written@ == text,
        Atom::Symbol(symbol) => text == symbol@,
        _ => text == Seq::<char>::empty(),
    }
}

/// Are `texts` the written forms of `atoms`, one for one?
pub open spec fn atoms_render<F: Fn(u32) -> String>(
    format_float: F,
    atoms: Seq<Atom>,
    texts: Seq<Seq<char>>,
) -> bool {
    &&& texts.len() == atoms.len()
    &&& forall|i: int|
        0 <= i < atoms.len() ==> atom_renders(format_float, #[trigger] atoms[i], texts[i])
}

/// The value of a decimal digit, or -1 for any other character
pub open spec fn digit_value(c: char) -> int {
    if '0' <= c <= '9' {
        c as int - '0' as int
    } else {
        -1
    }
}

/// Is `pieces` a template cut at its argument marks: does each piece but
/// the first begin with a decimal digit?
pub open spec fn is_template(pieces: Seq<Seq<char>>) -> bool {
    forall|k: int|
        1 <= k < pieces.len() ==> (#[trigger] pieces[k]).len() >= 1 && digit_value(pieces[k][0])
            >= 0
}

/// What the pieces of a template from the `k`-th on add to the text `acc`,
/// and the error that ends the substitution, if one does. The first
/// character of a piece is a digit, which names the argument at that
/// number less `offset`. No such argument: the substitution ends there with
/// `IndexOutOfBounds`. A float or a symbol: its written form, then the rest
/// of the piece. Any other atom: nothing, and the rest of the piece is
/// left out too.
pub open spec fn substituted(
    pieces: Seq<Seq<char>>,
    k: int,
    arguments: Seq<Atom>,
    texts: Seq<Seq<char>>,
    offset: int,
    acc: Seq<char>,
) -> (Seq<char>, Option<ErrorKind>)
    decreases pieces.len() - k,
{
    if k < 0 || k >= pieces.len() {
        (acc, None)
    } else {
        let piece = pieces[k];
        let index = digit_value(piece[0]) - offset;
        if index < 0 || index >= arguments.len() {
            (acc, Some(ErrorKind::IndexOutOfBounds))
        } else if arguments[index] is Float || arguments[index] is Symbol {
            substituted(
                pieces,
                k + 1,
                arguments,
                texts,
                offset,
                acc + texts[index] + piece.subrange(1, piece.len() as int),
            )
        } else {
            substituted(pieces, k + 1, arguments, texts, offset, acc)
        }
    }
}


impl<'pd> Message<'pd> {
    /// The timestamp of this message
    pub closed spec fn timestamp_spec(&self) -> Timestamp {
        self.timestamp
    }

    /// The number of atoms that this message can hold
    pub closed spec fn capacity_spec(&self) -> nat {
        self.capacity as nat
    }

    /// A message never holds more atoms than its capacity, and no capacity
    /// is above `MAX_ATOMS`.
    pub open spec fn wf(&self) -> bool {
        self@.len() <= self.capacity_spec() <= MAX_ATOMS
    }

    /// Are two messages equal: their timestamps, as IEEE-754 compares
    /// them, and their atoms, one by one?
    pub open spec fn equals(&self, other: &Message) -> bool {
        &&& self.timestamp_spec().same_moment(other.timestamp_spec())
        &&& all_atoms_equal(self@, other@)
    }

    /// Does a message equal itself? It does unless its timestamp or one of
    /// its floats is a NaN.
    pub open spec fn is_reflexive(&self) -> bool {
        &&& !crate::ieee::double_is_nan(self.timestamp_spec().0)
        &&& forall|i: int| 0 <= i < self@.len() ==> atom::is_reflexive(#[trigger] self@[i])
    }

    /// Initialize a message with the given timestamp and room for
    /// `capacity` atoms. It holds one atom, a bang.
    ///
    /// This is the primary constructor for all message objects.
    pub fn from_timestamp(capacity: usize, timestamp: Timestamp) -> (message: Message<'pd>)
        requires
            1 <= capacity <= MAX_ATOMS,
        ensures
            message.wf(),
            message.timestamp_spec() == timestamp,
            message.capacity_spec() == capacity,
            message@ == seq![Atom::Bang],
    {
        let mut atoms = buf_new();
        let _ = buf_push(&mut atoms, Atom::Bang);
        Message { timestamp, capacity, atoms }
    }

    /// Get the number of elements in this message
    pub fn get_num_elements(&self) -> (n: usize)
        ensures
            n == self@.len(),
    {
        buf_len(&self.atoms)
    }

    /// The number of atoms that this message can hold
    pub fn capacity(&self) -> (n: usize)
        ensures
            n == self.capacity_spec(),
    {
        self.capacity
    }

    /// Get the element at the particular index
    pub fn get_element(&self, index: usize) -> (r: Option<Atom<'pd>>)
        ensures
            r == if index < self@.len() {
                Some(self@[index as int])
            } else {
                None
            },
    {
        if index < buf_len(&self.atoms) {
            Some(buf_get(&self.atoms, index))
        } else {
            None
        }
    }

    /// Is the atom at the given index equal to the other atom?
    pub fn atom_is_equal_to(&self, index: usize, other: &Atom) -> (b: bool)
        ensures
            b == (index < self@.len() && atoms_equal(self@[index as int], *other)),
    {
        match self.get_element(index) {
            Some(atom) => atom == *other,
            None => false,
        }
    }

    /// Set the global timestamp of this message (in milliseconds)
    pub fn set_timestamp(&mut self, timestamp: Timestamp)
        ensures
            final(self).timestamp_spec() == timestamp,
            final(self).capacity_spec() == old(self).capacity_spec(),
            final(self)@ == old(self)@,
    {
        self.timestamp = timestamp;
    }

    /// Get the global timestamp of this message (in milliseconds)
    pub fn get_timestamp(&self) -> (ts: Timestamp)
        ensures
            ts == self.timestamp_spec(),
    {
        self.timestamp
    }

    /// Is the given message element a float?
    pub fn is_float(&self, index: usize) -> (b: bool)
        ensures
            b == (index < self@.len() && self@[index as int] is Float),
    {
        match self.get_element(index) {
            Some(atom) => atom.is_float(),
            None => false,
        }
    }

    /// Is the given message element a symbol?
    pub fn is_symbol(&self, index: usize) -> (b: bool)
        ensures
            b == (index < self@.len() && self@[index as int] is Symbol),
    {
        match self.get_element(index) {
            Some(atom) => atom.is_symbol(),
            None => false,
        }
    }

    /// Is the given message element a symbol that matches the given test string?
    pub fn is_symbol_str(&self, index: usize, test: &str) -> (b: bool)
        ensures
            b == (index < self@.len() && self@[index as int] is Symbol
                && self@[index as int]->Symbol_0@ == test@),
    {
        match self.get_element(index) {
            Some(atom) => atom.is_symbol_str(test),
            None => false,
        }
    }

    /// Is the given message element a bang?
    pub fn is_bang(&self, index: usize) -> (b: bool)
        ensures
            b == (index < self@.len() && self@[index as int] is Bang),
    {
        match self.get_element(index) {
            Some(atom) => atom.is_bang(),
            None => false,
        }
    }

    /// Does this message match the given format string: as many characters
    /// as the message has atoms, each standing for the type of the atom at
    /// its place?
    pub fn has_format(&self, format: &str) -> (b: bool)
        ensures
            b == (format@.len() == self@.len() && forall|i: int|
                0 <= i < self@.len() ==> matches_format(#[trigger] self@[i], format@[i])),
    {
        let n = buf_len(&self.atoms);
        if format.unicode_len() != n {
            return false;
        }
        let mut i: usize = 0;
        while i < n
            invariant
                n == self@.len(),
                n == format@.len(),
                i <= n,
                forall|j: int| 0 <= j < i ==> matches_format(#[trigger] self@[j], format@[j]),
            decreases n - i,
        {
            let c = format.get_char(i);
            let atom = buf_get(&self.atoms, i);
            let ok = match c {
                'f' => atom.is_float(),
                's' => atom.is_symbol(),
                'b' => atom.is_bang(),
                _ => false,
            };
            if !ok {
                assert(!matches_format(self@[i as int], format@[i as int]));
                return false;
            }
            i += 1;
        }
        true
    }

    /// Get the type for the given message element; `ANYTHING` where the
    /// message has no such element.
    pub fn get_type(&self, index: usize) -> (t: element::Type)
        ensures
            t == if index < self@.len() {
                self@[index as int].type_spec()
            } else {
                element::Type::ANYTHING
            },
    {
        match self.get_element(index) {
            Some(atom) => atom.get_type(),
            None => element::Type::ANYTHING,
        }
    }

    /// Convenience function to get the float value from a particular message element
    pub fn get_float(&self, index: usize) -> (r: Option<u32>)
        ensures
            r == if index < self@.len() && self@[index as int] is Float {
                Some(self@[index as int]->Float_0)
            } else {
                None
            },
    {
        match self.get_element(index) {
            Some(atom) => atom.get_float(),
            None => None,
        }
    }

    /// Get the symbol value for the given element
    pub fn get_symbol(&self, index: usize) -> (r: Option<&'pd str>)
        ensures
            r == if index < self@.len() && self@[index as int] is Symbol {
                Some(self@[index as int]->Symbol_0)
            } else {
                None
            },
    {
        match self.get_element(index) {
            Some(atom) => atom.get_symbol(),
            None => None,
        }
    }

    /// Set an element to the given atom value: an element that is there is
    /// overwritten, and the place just behind the last element is filled
    /// if the capacity allows.
    ///
    /// `index` must not lie beyond that place.
    pub fn set_element(&mut self, index: usize, value: Atom<'pd>) -> (r: Result<(), Error>)
        requires
            old(self).wf(),
            index <= old(self)@.len(),
        ensures
            final(self).wf(),
            final(self).timestamp_spec() == old(self).timestamp_spec(),
            final(self).capacity_spec() == old(self).capacity_spec(),
            r is Err <==> index == old(self)@.len() && old(self)@.len() == old(self).capacity_spec(),
            r is Err ==> final(self)@ == old(self)@ && r->Err_0.kind_spec()
                == ErrorKind::BufferOverflow,
            r is Ok ==> final(self)@ == if index < old(self)@.len() {
                old(self)@.update(index as int, value)
            } else {
                old(self)@.push(value)
            },
    {
        let n = buf_len(&self.atoms);
        if index < n {
            buf_set(&mut self.atoms, index, value);
            Ok(())
        } else if n < self.capacity {
            let _ = buf_push(&mut self.atoms, value);
            Ok(())
        } else {
            Err(Error::new(ErrorKind::BufferOverflow))
        }
    }

    /// Convenience function to set a message element to the `ANYTHING` atom
    pub fn set_anything(&mut self, index: usize) -> (r: Result<(), Error>)
        requires
            old(self).wf(),
            index <= old(self)@.len(),
        ensures
            final(self).wf(),
            final(self).timestamp_spec() == old(self).timestamp_spec(),
            final(self).capacity_spec() == old(self).capacity_spec(),
            r is Err <==> index == old(self)@.len() && old(self)@.len() == old(self).capacity_spec(),
            r is Err ==> final(self)@ == old(self)@ && r->Err_0.kind_spec()
                == ErrorKind::BufferOverflow,
            r is Ok ==> final(self)@ == if index < old(self)@.len() {
                old(self)@.update(index as int, Atom::Anything)
            } else {
                old(self)@.push(Atom::Anything)
            },
    {
        self.set_element(index, Atom::Anything)
    }

    /// Convenience function to set a message element to the `BANG` atom
    pub fn set_bang(&mut self, index: usize) -> (r: Result<(), Error>)
        requires
            old(self).wf(),
            index <= old(self)@.len(),
        ensures
            final(self).wf(),
            final(self).timestamp_spec() == old(self).timestamp_spec(),
            final(self).capacity_spec() == old(self).capacity_spec(),
            r is Err <==> index == old(self)@.len() && old(self)@.len() == old(self).capacity_spec(),
            r is Err ==> final(self)@ == old(self)@ && r->Err_0.kind_spec()
                == ErrorKind::BufferOverflow,
            r is Ok ==> final(self)@ == if index < old(self)@.len() {
                old(self)@.update(index as int, Atom::Bang)
            } else {
                old(self)@.push(Atom::Bang)
            },
    {
        self.set_element(index, Atom::Bang)
    }

    /// Convenience function to set a message element to a float value,
    /// given as its bit pattern.
    pub fn set_float(&mut self, index: usize, value: u32) -> (r: Result<(), Error>)
        requires
            old(self).wf(),
            index <= old(self)@.len(),
        ensures
            final(self).wf(),
            final(self).timestamp_spec() == old(self).timestamp_spec(),
            final(self).capacity_spec() == old(self).capacity_spec(),
            r is Err <==> index == old(self)@.len() && old(self)@.len() == old(self).capacity_spec(),
            r is Err ==> final(self)@ == old(self)@ && r->Err_0.kind_spec()
                == ErrorKind::BufferOverflow,
            r is Ok ==> final(self)@ == if index < old(self)@.len() {
                old(self)@.update(index as int, Atom::Float(value))
            } else {
                old(self)@.push(Atom::Float(value))
            },
    {
        self.set_element(index, Atom::Float(value))
    }

    /// Convenience function to set a message element to the `LIST` atom
    pub fn set_list(&mut self, index: usize) -> (r: Result<(), Error>)
        requires
            old(self).wf(),
            index <= old(self)@.len(),
        ensures
            final(self).wf(),
            final(self).timestamp_spec() == old(self).timestamp_spec(),
            final(self).capacity_spec() == old(self).capacity_spec(),
            r is Err <==> index == old(self)@.len() && old(self)@.len() == old(self).capacity_spec(),
            r is Err ==> final(self)@ == old(self)@ && r->Err_0.kind_spec()
                == ErrorKind::BufferOverflow,
            r is Ok ==> final(self)@ == if index < old(self)@.len() {
                old(self)@.update(index as int, Atom::List)
            } else {
                old(self)@.push(Atom::List)
            },
    {
        self.set_element(index, Atom::List)
    }

    /// Convenience function to set a message element to a symbol value.
    pub fn set_symbol(&mut self, index: usize, symbol: &'pd str) -> (r: Result<(), Error>)
        requires
            old(self).wf(),
            index <= old(self)@.len(),
        ensures
            final(self).wf(),
            final(self).timestamp_spec() == old(self).timestamp_spec(),
            final(self).capacity_spec() == old(self).capacity_spec(),
            r is Err <==> index == old(self)@.len() && old(self)@.len() == old(self).capacity_spec(),
            r is Err ==> final(self)@ == old(self)@ && r->Err_0.kind_spec()
                == ErrorKind::BufferOverflow,
            r is Ok ==> final(self)@ == if index < old(self)@.len() {
                old(self)@.update(index as int, Atom::Symbol(symbol))
            } else {
                old(self)@.push(Atom::Symbol(symbol))
            },
    {
        self.set_element(index, Atom::Symbol(symbol))
    }

    /// Converts symbolic elements referring to message element types (e.g. `float` or `f`) to those
    /// types. For instance, if an element has a symbolic value of `float`, then that element is
    /// converted into one of type `FLOAT`.
    pub fn resolve_symbols_to_type(&mut self)
        ensures
            final(self).timestamp_spec() == old(self).timestamp_spec(),
            final(self).capacity_spec() == old(self).capacity_spec(),
            final(self)@ == old(self)@.map_values(|atom: Atom<'pd>| resolved_type(atom)),
    {
        let n = buf_len(&self.atoms);
        let mut i: usize = 0;
        while i < n
            invariant
                n == old(self)@.len(),
                i <= n,
                self.timestamp == old(self).timestamp,
                self.capacity == old(self).capacity,
                self@.len() == n,
                forall|j: int| 0 <= j < i ==> self@[j] == resolved_type(#[trigger] old(self)@[j]),
                forall|j: int| i <= j < n ==> self@[j] == #[trigger] old(self)@[j],
            decreases n - i,
        {
            let atom = buf_get(&self.atoms, i);
            let resolved = match atom {
                Atom::Symbol(s) => if atom::str_equal(s, "symbol") || atom::str_equal(s, "s") {
                    atom
                } else if atom::str_equal(s, "anything") || atom::str_equal(s, "a") {
                    Atom::Anything
                } else if atom::str_equal(s, "bang") || atom::str_equal(s, "b") {
                    Atom::Bang
                } else if atom::str_equal(s, "float") || atom::str_equal(s, "f") {
                    Atom::Float(0)
                } else if atom::str_equal(s, "list") || atom::str_equal(s, "l") {
                    Atom::List
                } else {
                    Atom::Anything
                },
                _ => atom,
            };
            buf_set(&mut self.atoms, i, resolved);
            i += 1;
        }
        assert(self@ =~= old(self)@.map_values(|atom: Atom<'pd>| resolved_type(atom)));
    }

    /// Adds elements to the message by tokenizing the given string at each
    /// ` ;`. If a token is numeric then it is resolved to a float, and
    /// `parse_float` says which tokens are: it gives the value of a token
    /// that reads as a number. Otherwise the token is a bang or a symbol.
    ///
    /// Fails with `BufferOverflow` when there are more tokens than
    /// `capacity`.
    pub fn from_string<F: Fn(&str) -> Option<u32>>(
        capacity: usize,
        timestamp: Timestamp,
        init_string: &'pd str,
        parse_float: F,
    ) -> (r: Result<Message<'pd>, Error>)
        requires
            1 <= capacity <= MAX_ATOMS,
            forall|token: &str| call_requires(parse_float, (token,)),
        ensures
            r is Ok <==> split_pieces(init_string@, ' ', ';').len() <= capacity,
            r is Err ==> r->Err_0.kind_spec() == ErrorKind::BufferOverflow,
            r is Ok ==> {
                let message = r->Ok_0;
                let tokens = split_pieces(init_string@, ' ', ';');
                &&& message.wf()
                &&& message.timestamp_spec() == timestamp
                &&& message.capacity_spec() == capacity
                &&& message@.len() == tokens.len()
                &&& forall|i: int|
                    0 <= i < tokens.len() ==> token_atom(
                        parse_float,
                        tokens[i],
                        #[trigger] message@[i],
                    )
            },
    {
        let tokens = split(init_string, ' ', ';');
        proof {
            crate::utils::lemma_pieces_nonempty(init_string@, 0, ' ', ';');
        }
        if tokens.len() > capacity {
            return Err(Error::new(ErrorKind::BufferOverflow));
        }
        let mut result = Message::from_timestamp(capacity, timestamp);
        let ghost texts = split_pieces(init_string@, ' ', ';');
        let mut i: usize = 0;
        while i < tokens.len()
            invariant
                i <= tokens@.len(),
                tokens@.len() == texts.len(),
                tokens@.len() <= capacity,
                forall|j: int| 0 <= j < tokens@.len() ==> (#[trigger] tokens@[j])@ == texts[j],
                result.wf(),
                result.timestamp_spec() == timestamp,
                result.capacity_spec() == capacity,
                result@.len() == if i == 0 {
                    1int
                } else {
                    i as int
                },
                forall|j: int|
                    0 <= j < i ==> token_atom(parse_float, texts[j], #[trigger] result@[j]),
                forall|token: &str| call_requires(parse_float, (token,)),
            decreases tokens@.len() - i,
        {
            let token: &'pd str = tokens[i];
            let parsed = parse_float(token);
            let atom = Atom::from_token(token, parsed);
            let ghost before = result@;
            let stored = result.set_element(i, atom);
            proof {
                assert(call_ensures(parse_float, (token,), parsed));
                assert(atom_reads(atom, texts[i as int], parsed));
                assert(token_atom(parse_float, texts[i as int], atom));
                assert(stored is Ok);
                assert(result@[i as int] == atom);
                assert forall|j: int| 0 <= j < i + 1 implies token_atom(
                    parse_float,
                    texts[j],
                    #[trigger] result@[j],
                ) by {
                    if j < i {
                        assert(result@[j] == before[j]);
                    }
                }
            }
            i += 1;
        }
        Ok(result)
    }

    /// The written form of one atom; see `atom_renders`.
    pub fn render_atom<F: Fn(u32) -> String>(atom: Atom, format_float: &F) -> (text: String)
        requires
            forall|value: u32| call_requires(*format_float, (value,)),
        ensures
            atom_renders(*format_float, atom, text@),
    {
        match atom {
            Atom::Bang => String::from_str("bang"),
            Atom::Float(value) => {
                let written = format_float(value);
                assert(call_ensures(*format_float, (value,), written));
                written
            },
            Atom::Symbol(symbol) => String::from_str(symbol),
            _ => {
                let empty = String::from_str("");
                proof {
                    reveal_strlit("");
                }
                assert(empty@ =~= Seq::<char>::empty());
                empty
            },
        }
    }

    /// The written forms of the atoms of this message, one for one
    pub fn render_atoms<F: Fn(u32) -> String>(&self, format_float: &F) -> (texts: Vec<String>)
        requires
            forall|value: u32| call_requires(*format_float, (value,)),
        ensures
            atoms_render(*format_float, self@, texts@.map_values(|text: String| text@)),
    {
        let n = buf_len(&self.atoms);
        let mut texts: Vec<String> = Vec::new();
        let mut i: usize = 0;
        while i < n
            invariant
                n == self@.len(),
                i <= n,
                texts@.len() == i,
                forall|j: int|
                    0 <= j < i ==> atom_renders(*format_float, #[trigger] self@[j], texts@[j]@),
                forall|value: u32| call_requires(*format_float, (value,)),
            decreases n - i,
        {
            let text = Message::render_atom(buf_get(&self.atoms, i), format_float);
            texts.push(text);
            i += 1;
        }
        texts
    }

    /// The written form of this message: the written forms of its atoms,
    /// with a space between each two. `format_float` writes the floats.
    pub fn to_text<F: Fn(u32) -> String>(&self, format_float: F) -> (text: String)
        requires
            forall|value: u32| call_requires(format_float, (value,)),
        ensures
            exists|texts: Seq<Seq<char>>| #[trigger]
                atoms_render(format_float, self@, texts) && text@ == joined(texts, ' '),
    {
        let rendered = self.render_atoms(&format_float);
        let ghost texts = rendered@.map_values(|text: String| text@);
        let mut text = String::from_str("");
        proof {
            reveal_strlit("");
            reveal_strlit(" ");
            assert(text@ =~= joined(texts.take(0), ' '));
        }
        let mut i: usize = 0;
        while i < rendered.len()
            invariant
                i <= rendered@.len(),
                texts == rendered@.map_values(|text: String| text@),
                text@ == joined(texts.take(i as int), ' '),
                " "@ == seq![' '],
            decreases rendered@.len() - i,
        {
            proof {
                let next = texts.take(i as int + 1);
                assert(next.drop_last() =~= texts.take(i as int));
                assert(next.last() == rendered@[i as int]@);
                if i == 0 {
                    assert(text@ =~= Seq::<char>::empty());
                    assert(joined(next, ' ') =~= text@ + rendered@[i as int]@);
                } else {
                    assert(joined(next, ' ') == text@ + seq![' '] + rendered@[i as int]@);
                }
            }
            if i != 0 {
                text.append(" ");
            }
            text.append(rendered[i].as_str());
            i += 1;
        }
        assert(texts.take(rendered@.len() as int) =~= texts);
        text
    }

    /// Is `init_string` a template that `resolve_string` can take: does a
    /// decimal digit follow each of its argument marks `\$`?
    #[verifier::loop_isolation(false)]
    pub fn is_argument_template(init_string: &str) -> (b: bool)
        ensures
            b == is_template(split_pieces(init_string@, '\\', '$')),
    {
        let pieces = split(init_string, '\\', '$');
        let ghost texts = split_pieces(init_string@, '\\', '$');
        let mut k: usize = 1;
        while k < pieces.len()
            invariant
                1 <= k,
                pieces@.len() == texts.len(),
                forall|j: int| 0 <= j < pieces@.len() ==> (#[trigger] pieces@[j])@ == texts[j],
                forall|j: int|
                    1 <= j < k && j < texts.len() ==> (#[trigger] texts[j]).len() >= 1
                        && digit_value(texts[j][0]) >= 0,
            decreases pieces@.len() - k,
        {
            let piece = pieces[k];
            assert(piece@ == texts[k as int]);
            if piece.unicode_len() == 0 {
                assert(texts[k as int].len() == 0);
                return false;
            }
            let code = piece.get_char(0) as u32;
            if code < 48 || code > 57 {
                assert(digit_value(texts[k as int][0]) < 0);
                return false;
            }
            k += 1;
        }
        true
    }

    /// Resolve arguments in a string with a given argument list into the given `buffer`.
    ///
    /// The string is cut at each argument mark `\$`. What stands before the
    /// first mark is written as it is. The digit behind a mark names an
    /// argument, at that number less `offset`; the written form of a float
    /// or symbol argument takes the place of mark and digit. Without an
    /// argument list the string is written as it is.
    ///
    /// The `offset` parameter adjusts the resolution of the `$` argument.
    /// In the case of message boxes, `$0` refers to the graph id, which is the first argument in a
    /// graph's list of arguments. For all other objects, `$1` refers to the first (0th) element of
    /// the argument. The offset is used to distinguish between these
    /// cases, by offsetting the argument index resolution.
    ///
    /// Fails with `IndexOutOfBounds` at the first mark that names no
    /// argument; what was written up to there stays in the buffer.
    #[verifier::loop_isolation(false)]
    pub fn resolve_string<F: Fn(u32) -> String>(
        init_string: &str,
        arguments_opt: Option<&Message>,
        offset: usize,
        buffer: &mut String,
        format_float: F,
    ) -> (r: Result<(), Error>)
        requires
            forall|value: u32| call_requires(format_float, (value,)),
            arguments_opt is Some ==> is_template(split_pieces(init_string@, '\\', '$')),
        ensures
            arguments_opt is None ==> r is Ok && final(buffer)@ == old(buffer)@ + init_string@,
            arguments_opt is Some ==> exists|texts: Seq<Seq<char>>| #[trigger]
                atoms_render(format_float, arguments_opt->Some_0@, texts) && {
                    let pieces = split_pieces(init_string@, '\\', '$');
                    let outcome = substituted(
                        pieces,
                        1,
                        arguments_opt->Some_0@,
                        texts,
                        offset as int,
                        old(buffer)@ + pieces[0],
                    );
                    &&& final(buffer)@ == outcome.0
                    &&& r is Ok <==> outcome.1 is None
                    &&& r is Err ==> Some(r->Err_0.kind_spec()) == outcome.1
                },
    {
        match arguments_opt {
            None => {
                buffer.append(init_string);
                Ok(())
            },
            Some(arguments) => {
                let rendered = arguments.render_atoms(&format_float);
                let num_arguments = arguments.get_num_elements();
                let pieces = split(init_string, '\\', '$');
                let ghost texts = rendered@.map_values(|text: String| text@);
                let ghost cut = split_pieces(init_string@, '\\', '$');
                proof {
                    crate::utils::lemma_pieces_nonempty(init_string@, 0, '\\', '$');
                }
                buffer.append(pieces[0]);
                let ghost outcome = substituted(
                    cut,
                    1,
                    arguments@,
                    texts,
                    offset as int,
                    old(buffer)@ + cut[0],
                );
                let mut k: usize = 1;
                while k < pieces.len()
                    invariant
                        1 <= k <= pieces@.len(),
                        pieces@.len() == cut.len(),
                        forall|j: int|
                            0 <= j < pieces@.len() ==> (#[trigger] pieces@[j])@ == cut[j],
                        is_template(cut),
                        num_arguments == arguments@.len(),
                        texts == rendered@.map_values(|text: String| text@),
                        texts.len() == arguments@.len(),
                        outcome == substituted(
                            cut,
                            k as int,
                            arguments@,
                            texts,
                            offset as int,
                            buffer@,
                        ),
                    decreases pieces@.len() - k,
                {
                    let piece = pieces[k];
                    assert(piece@ == cut[k as int]);
                    assert(cut[k as int].len() >= 1 && digit_value(cut[k as int][0]) >= 0);
                    let digit = (piece.get_char(0) as u32 - 48) as usize;
                    assert(digit == digit_value(cut[k as int][0]));
                    if digit < offset || digit - offset >= num_arguments {
                        return Err(Error::new(ErrorKind::IndexOutOfBounds));
                    }
                    let index = digit - offset;
                    let atom = buf_get(&arguments.atoms, index);
                    if atom.is_float() || atom.is_symbol() {
                        buffer.append(rendered[index].as_str());
                        let len = piece.unicode_len();
                        buffer.append(piece.substring_char(1, len));
                    }
                    k += 1;
                }
                Ok(())
            },
        }
    }

    /// Is this message equal to the other: the timestamps, as IEEE-754
    /// compares them, and the atoms, one by one?
    pub fn is_equal_to(&self, other: &Message) -> (b: bool)
        ensures
            b == self.equals(other),
    {
        if !(self.timestamp == other.timestamp) {
            return false;
        }
        let n = buf_len(&self.atoms);
        if n != buf_len(&other.atoms) {
            return false;
        }
        let mut i: usize = 0;
        while i < n
            invariant
                n == self@.len(),
                n == other@.len(),
                i <= n,
                forall|j: int| 0 <= j < i ==> atoms_equal(#[trigger] self@[j], other@[j]),
            decreases n - i,
        {
            if !(buf_get(&self.atoms, i) == buf_get(&other.atoms, i)) {
                assert(!atoms_equal(self@[i as int], other@[i as int]));
                return false;
            }
            i += 1;
        }
        true
    }

    /// Initialize a message with a timestamp and `Atom`
    pub fn from_timestamp_and_atom(timestamp: Timestamp, atom: Atom<'pd>) -> (message: Message<
        'pd,
    >)
        ensures
            message.wf(),
            message.timestamp_spec() == timestamp,
            message.capacity_spec() == 1,
            message@ == seq![atom],
    {
        let mut result = Message::from_timestamp(1, timestamp);
        buf_set(&mut result.atoms, 0, atom);
        assert(result@ =~= seq![atom]);
        result
    }

    /// Initialize a message with a timestamp and a "bang"
    pub fn from_timestamp_and_bang(timestamp: Timestamp) -> (message: Message<'pd>)
        ensures
            message.wf(),
            message.timestamp_spec() == timestamp,
            message.capacity_spec() == 1,
            message@ == seq![Atom::Bang],
    {
        Message::from_timestamp(1, timestamp)
    }

    /// Initialize a message with a timestamp and a floating point value,
    /// given as its bit pattern
    pub fn from_timestamp_and_float(timestamp: Timestamp, value: u32) -> (message: Message<'pd>)
        ensures
            message.wf(),
            message.timestamp_spec() == timestamp,
            message.capacity_spec() == 1,
            message@ == seq![Atom::Float(value)],
    {
        Message::from_timestamp_and_atom(timestamp, Atom::Float(value))
    }

    /// Initialize a message with a timestamp and the given "symbol"
    pub fn from_timestamp_and_symbol(timestamp: Timestamp, symbol: &'pd str) -> (message:
        Message<'pd>)
        ensures
            message.wf(),
            message.timestamp_spec() == timestamp,
            message.capacity_spec() == 1,
            message@ == seq![Atom::Symbol(symbol)],
    {
        Message::from_timestamp_and_atom(timestamp, Atom::Symbol(symbol))
    }
}

impl<'pd> PartialEq for Message<'pd> {
    fn eq(&self, other: &Message<'pd>) -> (r: bool)
    {
        self.is_equal_to(other)
    }
}

impl<'pd> vstd::std_specs::cmp::PartialEqSpecImpl for Message<'pd> {
    open spec fn obeys_eq_spec() -> bool {
        true
    }

    open spec fn eq_spec(&self, other: &Message<'pd>) -> bool {
        self.equals(other)
    }
}

impl<'pd> Clone for Message<'pd> {
    fn clone(&self) -> (copy: Message<'pd>)
        ensures
            copy@ == self@,
            copy.timestamp_spec() == self.timestamp_spec(),
            copy.capacity_spec() == self.capacity_spec(),
    {
        Message { timestamp: self.timestamp, capacity: self.capacity, atoms: buf_clone(&self.atoms) }
    }
}

} // verus!
