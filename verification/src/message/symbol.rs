//! Symbols: Pure Data keywords or command names, held in a buffer of fixed
//! size

use crate::pd::message::atom::str_equal;
use vstd::prelude::*;
use vstd::string::*;

verus! {

/// Maximum length of a `Symbol` in bytes.
pub const SYMBOL_BUFFER_LENGTH: usize = 56;

/// The storage of a symbol: a `heapless::String` of fixed capacity.
#[verifier::external_body]
pub struct SymbolBuf {
    inner: heapless::String<heapless::consts::U56>,
}

/// The text that a buffer holds
pub uninterp spec fn text_held(buf: SymbolBuf) -> Seq<char>;

/// `heapless::String::from`: a string of the same text, which needs the
/// text to fit.
#[verifier::external_body]
fn buf_from(string: &str) -> (buf: SymbolBuf)
    requires
        string.spec_bytes().len() <= SYMBOL_BUFFER_LENGTH,
    ensures
        text_held(buf) == string@,
{
    SymbolBuf { inner: heapless::String::from(string) }
}

/// `heapless::String::as_str`: the text of the string.
#[verifier::external_body]
fn buf_as_str(buf: &SymbolBuf) -> (text: &str)
    ensures
        text@ == text_held(*buf),
{
    buf.inner.as_str()
}

/// `Clone` of a `heapless::String`: the copy holds the same text.
#[verifier::external_body]
fn buf_clone(buf: &SymbolBuf) -> (copy: SymbolBuf)
    ensures
        text_held(copy) == text_held(*buf),
{
    SymbolBuf { inner: buf.inner.clone() }
}

/// Symbols are Pure Data keywords or command names
pub struct Symbol(SymbolBuf);

impl View for Symbol {
    type V = Seq<char>;

    closed spec fn view(&self) -> Seq<char> {
        text_held(self.0)
    }
}

impl Symbol {
    /// Create a new symbol from the given string
    ///
    /// The string must fit: it can have `SYMBOL_BUFFER_LENGTH` bytes.
    pub fn new(string: &str) -> (symbol: Symbol)
        requires
            string.spec_bytes().len() <= SYMBOL_BUFFER_LENGTH,
        ensures
            symbol@ == string@,
    {
        Symbol(buf_from(string))
    }

    /// Create a new symbol from the given string, if the string fits.
    pub fn try_new(string: &str) -> (r: Option<Symbol>)
        ensures
            r is Some <==> string.spec_bytes().len() <= SYMBOL_BUFFER_LENGTH,
            r is Some ==> r->Some_0@ == string@,
    {
        if string.as_bytes().len() <= SYMBOL_BUFFER_LENGTH {
            Some(Symbol(buf_from(string)))
        } else {
            None
        }
    }

    /// Borrow the inner string contents of this `Symbol`
    pub fn as_str(&self) -> (text: &str)
        ensures
            text@ == self@,
    {
        buf_as_str(&self.0)
    }

    /// Do the two symbols hold the same text?
    pub fn is_equal_to(&self, other: &Symbol) -> (b: bool)
        ensures
            b == (self@ == other@),
    {
        str_equal(self.as_str(), other.as_str())
    }
}

impl Clone for Symbol {
    fn clone(&self) -> (copy: Symbol)
        ensures
            copy@ == self@,
    {
        Symbol(buf_clone(&self.0))
    }
}

} // verus!
