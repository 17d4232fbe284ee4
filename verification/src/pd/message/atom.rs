//! Message atoms

use crate::ieee::{eq_single, single_eq};
use crate::message::element;
use vstd::prelude::*;

verus! {

/// Message atoms (a.k.a. elements)
#[derive(Copy, Clone, Debug)]
pub enum Atom<'pd> {
    /// Any value (placeholder for uninitialized values)
    Anything,
    /// `bang`: Typically used to trigger an object to perform an action.
    Bang,
    /// `float`: Single-precision floating point value, as its IEEE-754 bit
    /// pattern
    Float(u32),
    /// `list`: placeholder for a list of other atoms
    List,
    /// `symbol`: Symbols i.e. Pure Data keywords (e.g. `float`, `list`, `symbol`)
    Symbol(&'pd str),
}

/// Are two atoms equal? Floats are compared as IEEE-754 compares them and
/// symbols by their text.
pub open spec fn atoms_equal(a: Atom, b: Atom) -> bool {
    match (a, b) {
        (Atom::Anything, Atom::Anything) => true,
        (Atom::Bang, Atom::Bang) => true,
        (Atom::Float(x), Atom::Float(y)) => single_eq(x, y),
        (Atom::List, Atom::List) => true,
        (Atom::Symbol(x), Atom::Symbol(y)) => x@ == y@,
        _ => false,
    }
}

/// Does an atom equal itself? Every atom does but a float that is a NaN.
pub open spec fn is_reflexive(a: Atom) -> bool {
    a matches Atom::Float(x) ==> !crate::ieee::single_is_nan(x)
}

/// Do two strings hold the same text?
pub fn str_equal(a: &str, b: &str) -> (r: bool)
    ensures
        r == (a@ == b@),
{
    let n = a.unicode_len();
    if n != b.unicode_len() {
        return false;
    }
    let mut i: usize = 0;
    while i < n
        invariant
            n == a@.len(),
            n == b@.len(),
            i <= n,
            forall|j: int| 0 <= j < i ==> a@[j] == b@[j],
        decreases n - i,
    {
        if a.get_char(i) != b.get_char(i) {
            return false;
        }
        i += 1;
    }
    assert(a@ =~= b@);
    true
}

impl<'pd> Atom<'pd> {
    /// Get the element type for this atom
    pub open spec fn type_spec(self) -> element::Type {
        match self {
            Atom::Anything => element::Type::ANYTHING,
            Atom::Bang => element::Type::BANG,
            Atom::Float(_) => element::Type::FLOAT,
            Atom::List => element::Type::LIST,
            Atom::Symbol(_) => element::Type::SYMBOL,
        }
    }

    /// Get the element type for this atom
    pub fn get_type(&self) -> (t: element::Type)
        ensures
            t == self.type_spec(),
    {
        match self {
            Atom::Anything => element::Type::ANYTHING,
            Atom::Bang => element::Type::BANG,
            Atom::Float(_) => element::Type::FLOAT,
            Atom::List => element::Type::LIST,
            Atom::Symbol(_) => element::Type::SYMBOL,
        }
    }

    /// Obtain the numeric constant value for this atom, as its bit pattern
    pub fn get_float(&self) -> (r: Option<u32>)
        ensures
            r == match *self {
                Atom::Float(n) => Some(n),
                _ => None::<u32>,
            },
    {
        match self {
            Atom::Float(n) => Some(*n),
            _ => None,
        }
    }

    /// Obtain the symbol value for this atom
    pub fn get_symbol(&self) -> (r: Option<&'pd str>)
        ensures
            r == match *self {
                Atom::Symbol(s) => Some(s),
                _ => None::<&str>,
            },
    {
        match self {
            Atom::Symbol(s) => Some(*s),
            _ => None,
        }
    }

    /// Is this atom an anything placeholder value?
    pub fn is_anything(&self) -> (b: bool)
        ensures
            b == (*self is Anything),
    {
        matches!(self, Atom::Anything)
    }

    /// Is this atom a `bang`?
    pub fn is_bang(&self) -> (b: bool)
        ensures
            b == (*self is Bang),
    {
        matches!(self, Atom::Bang)
    }

    /// Is this atom a `float`?
    pub fn is_float(&self) -> (b: bool)
        ensures
            b == (*self is Float),
    {
        matches!(self, Atom::Float(_))
    }

    /// Is this atom a `list`?
    pub fn is_list(&self) -> (b: bool)
        ensures
            b == (*self is List),
    {
        matches!(self, Atom::List)
    }

    /// Is this atom a `symbol`?
    pub fn is_symbol(&self) -> (b: bool)
        ensures
            b == (*self is Symbol),
    {
        matches!(self, Atom::Symbol(_))
    }

    /// Is this atom a `symbol` which matches the given string?
    pub fn is_symbol_str(&self, test: &str) -> (b: bool)
        ensures
            b == (*self is Symbol && self->Symbol_0@ == test@),
    {
        match self {
            Atom::Symbol(s) => str_equal(s, test),
            _ => false,
        }
    }

    /// The atom that a token of message text stands for. `parsed` is the
    /// value of the token where it reads as a number. A number is a float;
    /// `!`, `bang` and the empty token are a bang; anything else is a symbol
    /// of that text.
    pub open spec fn of_token(token: &'pd str, parsed: Option<u32>) -> Atom<'pd> {
        match parsed {
            Some(value) => Atom::Float(value),
            None => if token@ == "!"@ || token@ == "bang"@ || token@ == ""@ {
                Atom::Bang
            } else {
                Atom::Symbol(token)
            },
        }
    }

    /// The atom that a token of message text stands for; see `of_token`.
    pub fn from_token(token: &'pd str, parsed: Option<u32>) -> (atom: Atom<'pd>)
        ensures
            atom == Atom::of_token(token, parsed),
    {
        match parsed {
            Some(value) => Atom::Float(value),
            None => if str_equal(token, "!") || str_equal(token, "bang") || str_equal(token, "") {
                Atom::Bang
            } else {
                Atom::Symbol(token)
            },
        }
    }
}

impl<'pd> From<&'pd str> for Atom<'pd> {
    fn from(s: &'pd str) -> (atom: Atom<'pd>)
    {
        Atom::Symbol(s)
    }
}

impl<'pd> vstd::std_specs::convert::FromSpecImpl<&'pd str> for Atom<'pd> {
    open spec fn obeys_from_spec() -> bool {
        true
    }

    open spec fn from_spec(s: &'pd str) -> Atom<'pd> {
        Atom::Symbol(s)
    }
}

impl<'pd> PartialEq for Atom<'pd> {
    fn eq(&self, other: &Atom<'pd>) -> (r: bool)
    {
        match (self, other) {
            (Atom::Anything, Atom::Anything) => true,
            (Atom::Bang, Atom::Bang) => true,
            (Atom::Float(x), Atom::Float(y)) => eq_single(*x, *y),
            (Atom::List, Atom::List) => true,
            (Atom::Symbol(x), Atom::Symbol(y)) => str_equal(x, y),
            _ => false,
        }
    }
}

impl<'pd> vstd::std_specs::cmp::PartialEqSpecImpl for Atom<'pd> {
    open spec fn obeys_eq_spec() -> bool {
        true
    }

    open spec fn eq_spec(&self, other: &Atom<'pd>) -> bool {
        atoms_equal(*self, *other)
    }
}

} // verus!
