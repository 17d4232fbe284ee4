//! Message Elements: Components of a Pure Data message
//!
//! An element is an atom that owns its symbol.

use super::symbol::{Symbol, SYMBOL_BUFFER_LENGTH};
use crate::ieee::{eq_single, single_eq};
use crate::pd::message::atom::str_equal;
use crate::pd::message::Atom;
use vstd::prelude::*;
use vstd::string::*;

verus! {

/// Types of message elements
#[allow(non_camel_case_types)]
#[derive(Copy, Clone, Debug, PartialEq, Eq, Structural)]
pub enum Type {
    /// Any value (placeholder for uninitialized values)
    ANYTHING,
    /// `bang`: Typically used to trigger an object to perform an action.
    BANG,
    /// `float`: Single-precision floating point value
    FLOAT,
    /// `list`: Lists of other elements
    LIST,
    /// `symbol`: Symbol messages (i.e. keywords)
    SYMBOL,
}

/// Message Elements: Components of a Pure Data message
pub enum Element {
    /// Any value (placeholder for uninitialized values)
    Anything,
    /// `bang`: Typically used to trigger an object to perform an action.
    Bang,
    /// `float`: Single-precision floating point value, as its IEEE-754 bit
    /// pattern
    Float(u32),
    /// `list`: placeholder for a list of other elements
    List,
    /// `symbol`: Symbols i.e. Pure Data keywords (e.g. `float`, `list`, `symbol`)
    Symbol(Symbol),
}

/// Are two elements equal? Floats are compared as IEEE-754 compares them
/// and symbols by their text.
pub open spec fn elements_equal(a: Element, b: Element) -> bool {
    match (a, b) {
        (Element::Anything, Element::Anything) => true,
        (Element::Bang, Element::Bang) => true,
        (Element::Float(x), Element::Float(y)) => single_eq(x, y),
        (Element::List, Element::List) => true,
        (Element::Symbol(x), Element::Symbol(y)) => x@ == y@,
        _ => false,
    }
}

/// Is the element the owned form of the atom?
pub open spec fn owns(element: Element, atom: Atom) -> bool {
    match (element, atom) {
        (Element::Anything, Atom::Anything) => true,
        (Element::Bang, Atom::Bang) => true,
        (Element::Float(x), Atom::Float(y)) => x == y,
        (Element::List, Atom::List) => true,
        (Element::Symbol(x), Atom::Symbol(y)) => x@ == y@,
        _ => false,
    }
}

impl Element {
    /// The element type of this element
    pub open spec fn type_spec(&self) -> Type {
        match self {
            Element::Anything => Type::ANYTHING,
            Element::Bang => Type::BANG,
            Element::Float(_) => Type::FLOAT,
            Element::List => Type::LIST,
            Element::Symbol(_) => Type::SYMBOL,
        }
    }

    /// Get the element type for this element
    pub fn get_type(&self) -> (t: Type)
        ensures
            t == self.type_spec(),
    {
        match self {
            Element::Anything => Type::ANYTHING,
            Element::Bang => Type::BANG,
            Element::Float(_) => Type::FLOAT,
            Element::List => Type::LIST,
            Element::Symbol(_) => Type::SYMBOL,
        }
    }

    /// Obtain the numeric constant value for this element, as its bit
    /// pattern
    pub fn get_float(&self) -> (r: Option<u32>)
        ensures
            r is Some <==> *self is Float,
            r is Some ==> r->Some_0 == self->Float_0,
    {
        match self {
            Element::Float(n) => Some(*n),
            _ => None,
        }
    }

    /// Obtain the symbol value for this element
    pub fn get_symbol(&self) -> (r: Option<&str>)
        ensures
            r is Some <==> *self is Symbol,
            r is Some ==> r->Some_0@ == self->Symbol_0@,
    {
        match self {
            Element::Symbol(s) => Some(s.as_str()),
            _ => None,
        }
    }

    /// Is this element an anything placeholder value?
    pub fn is_anything(&self) -> (b: bool)
        ensures
            b == (*self is Anything),
    {
        matches!(self, Element::Anything)
    }

    /// Is this element a `bang`?
    pub fn is_bang(&self) -> (b: bool)
        ensures
            b == (*self is Bang),
    {
        matches!(self, Element::Bang)
    }

    /// Is this element a `float`?
    pub fn is_float(&self) -> (b: bool)
        ensures
            b == (*self is Float),
    {
        matches!(self, Element::Float(_))
    }

    /// Is this element a `list`?
    pub fn is_list(&self) -> (b: bool)
        ensures
            b == (*self is List),
    {
        matches!(self, Element::List)
    }

    /// Is this element a `symbol`?
    pub fn is_symbol(&self) -> (b: bool)
        ensures
            b == (*self is Symbol),
    {
        matches!(self, Element::Symbol(_))
    }

    /// Is this element a `symbol` which matches the given string?
    pub fn is_symbol_str(&self, test: &str) -> (b: bool)
        ensures
            b == (*self is Symbol && self->Symbol_0@ == test@),
    {
        match self {
            Element::Symbol(s) => str_equal(s.as_str(), test),
            _ => false,
        }
    }

    /// Set the anything value on this element
    pub fn set_anything(&mut self)
        ensures
            *final(self) == Element::Anything,
    {
        *self = Element::Anything;
    }

    /// Set the bang value on this element
    pub fn set_bang(&mut self)
        ensures
            *final(self) == Element::Bang,
    {
        *self = Element::Bang;
    }

    /// Set this value to a list
    pub fn set_list(&mut self)
        ensures
            *final(self) == Element::List,
    {
        *self = Element::List;
    }

    /// Set the floating point value of this element
    ///
    /// The element must be a float.
    pub fn set_float(&mut self, new_value: u32)
        requires
            *old(self) is Float,
        ensures
            *final(self) == Element::Float(new_value),
    {
        *self = Element::Float(new_value);
    }

    /// Set the symbol value of this element
    ///
    /// The element must be a symbol, and the new symbol must fit: it can
    /// have `SYMBOL_BUFFER_LENGTH` bytes.
    pub fn set_symbol(&mut self, new_symbol: &str)
        requires
            *old(self) is Symbol,
            new_symbol.spec_bytes().len() <= SYMBOL_BUFFER_LENGTH,
        ensures
            *final(self) is Symbol,
            final(self)->Symbol_0@ == new_symbol@,
    {
        *self = Element::Symbol(Symbol::new(new_symbol));
    }

    /// Is this element equal to the other? Floats are compared as
    /// IEEE-754 compares them and symbols by their text.
    pub fn is_equal_to(&self, other: &Element) -> (b: bool)
        ensures
            b == elements_equal(*self, *other),
    {
        match (self, other) {
            (Element::Anything, Element::Anything) => true,
            (Element::Bang, Element::Bang) => true,
            (Element::Float(x), Element::Float(y)) => eq_single(*x, *y),
            (Element::List, Element::List) => true,
            (Element::Symbol(x), Element::Symbol(y)) => x.is_equal_to(y),
            _ => false,
        }
    }

    /// The element that owns what the atom borrows
    ///
    /// A symbol must fit: it can have `SYMBOL_BUFFER_LENGTH` bytes.
    pub fn from_atom(atom: Atom) -> (element: Element)
        requires
            atom is Symbol ==> atom->Symbol_0.spec_bytes().len() <= SYMBOL_BUFFER_LENGTH,
        ensures
            owns(element, atom),
    {
        match atom {
            Atom::Anything => Element::Anything,
            Atom::Bang => Element::Bang,
            Atom::Float(f) => Element::Float(f),
            Atom::List => Element::List,
            Atom::Symbol(s) => Element::Symbol(Symbol::new(s)),
        }
    }

    /// The float element of the given bit pattern
    pub fn from_float(value: u32) -> (element: Element)
        ensures
            element == Element::Float(value),
    {
        Element::Float(value)
    }

    /// The symbol element of the given text
    ///
    /// The text must fit: it can have `SYMBOL_BUFFER_LENGTH` bytes.
    pub fn from_symbol(s: &str) -> (element: Element)
        requires
            s.spec_bytes().len() <= SYMBOL_BUFFER_LENGTH,
        ensures
            element is Symbol,
            element->Symbol_0@ == s@,
    {
        Element::Symbol(Symbol::new(s))
    }
}

} // verus!
