//! Message `send` (or `s`) command

pub mod controller;

pub use controller::Controller;

use crate::message::object::connection::Index;
use crate::message::object::{self, delivery_views, Delivery};
use crate::message::send::controller::{is_name_place, received_by_all, MAX_NAME_LENGTH};
use crate::pd;
use crate::pd::Message;
use vstd::prelude::*;
use vstd::string::*;

verus! {

/// The storage of the name of a send: a `heapless::String` of fixed
/// capacity.
#[verifier::external_body]
pub struct Name {
    inner: heapless::String<heapless::consts::U32>,
}

/// The text that a name holds
pub uninterp spec fn name_text(name: Name) -> Seq<char>;

/// `heapless::String::from`: a string of the same text, which needs the
/// text to fit.
#[verifier::external_body]
fn name_from(text: &str) -> (name: Name)
    requires
        text.spec_bytes().len() <= MAX_NAME_LENGTH,
    ensures
        name_text(name) == text@,
{
    Name { inner: heapless::String::from(text) }
}

/// `heapless::String::as_str`: the text of the string.
#[verifier::external_body]
fn name_as_str(name: &Name) -> (text: &str)
    ensures
        text@ == name_text(*name),
{
    name.inner.as_str()
}

/// Default name for `message::Send` objects
pub fn default_name() -> (name: &'static str)
    ensures
        name@ == "pz_default_sendreceive_name"@,
        name.spec_bytes().len() <= MAX_NAME_LENGTH,
{
    let name = "pz_default_sendreceive_name";
    proof {
        reveal_strlit("pz_default_sendreceive_name");
        assert(name@.len() == 27);
        assert(is_ascii(name)) by {
            assert forall|i: int| 0 <= i < name@.len() implies (name@[i] as nat) < 128 by {}
        }
        is_ascii_spec_bytes(name);
    }
    name
}

/// Message `send` (or `s`) command
pub struct Send {
    /// Name of this send
    name: Name,
    /// ID of the graph this send is associated with
    graph_id: pd::graph::Id,
}

impl Send {
    /// The name that this send sends to
    pub closed spec fn name_spec(&self) -> Seq<char> {
        name_text(self.name)
    }

    /// The graph that this send belongs to
    pub closed spec fn graph_spec(&self) -> pd::graph::Id {
        self.graph_id
    }

    /// Create a new `message::Send`. It sends to the name that the first
    /// atom of the message holds as a symbol, and to the default name
    /// where the first atom is no symbol.
    ///
    /// The name must fit: it can have `MAX_NAME_LENGTH` bytes.
    pub fn new(init_message: &Message, graph_id: pd::graph::Id) -> (send: Send)
        requires
            init_message@.len() > 0 && init_message@[0] is Symbol
                ==> init_message@[0]->Symbol_0.spec_bytes().len() <= MAX_NAME_LENGTH,
        ensures
            send.graph_spec() == graph_id,
            send.name_spec() == if init_message@.len() > 0 && init_message@[0] is Symbol {
                init_message@[0]->Symbol_0@
            } else {
                "pz_default_sendreceive_name"@
            },
    {
        let name = match init_message.get_symbol(0) {
            Some(symbol) => name_from(symbol),
            None => name_from(default_name()),
        };
        Send { name, graph_id }
    }

    /// Get the label for this object
    pub fn get_object_label(&self) -> (label: &'static str)
        ensures
            label@ == "send"@,
    {
        "send"
    }

    /// Get the type of this object
    pub fn get_object_type() -> (t: object::Type)
        ensures
            t == object::Type::MESSAGE_SEND,
    {
        object::Type::MESSAGE_SEND
    }

    /// The name that this send sends to
    pub fn name(&self) -> (text: &str)
        ensures
            text@ == self.name_spec(),
    {
        name_as_str(&self.name)
    }

    /// Receive a message to this send. A message at the left inlet is sent
    /// on to the receivers of the name, and the calls of `process_message`
    /// that this leads to are returned. A message at the second inlet whose
    /// first atom is a symbol sets the name. Any other message does
    /// nothing.
    ///
    /// A new name must fit: it can have `MAX_NAME_LENGTH` bytes.
    pub fn receive_message<'pd>(
        &mut self,
        context: &pd::Context<'pd>,
        inlet_index: Index,
        message: &Message<'pd>,
    ) -> (deliveries: Vec<Delivery<'pd>>)
        requires
            context.wf(),
            inlet_index.0 == 1 && message@.len() > 0 && message@[0] is Symbol
                ==> message@[0]->Symbol_0.spec_bytes().len() <= MAX_NAME_LENGTH,
        ensures
            final(self).graph_spec() == old(self).graph_spec(),
            final(self).name_spec() == if inlet_index.0 == 1 && message@.len() > 0 && message@[0]
                is Symbol {
                message@[0]->Symbol_0@
            } else {
                old(self).name_spec()
            },
            inlet_index.0 != 0 || old(self).name_spec() == "pd"@ || !context.names().contains(
                old(self).name_spec(),
            ) ==> deliveries@.len() == 0,
            inlet_index.0 == 0 && old(self).name_spec() != "pd"@ && context.names().contains(
                old(self).name_spec(),
            ) ==> exists|i: int| #[trigger]
                is_name_place(context.names(), old(self).name_spec(), i) && delivery_views(
                    deliveries@,
                ) == received_by_all(
                    context.slots(),
                    context.receivers()[i],
                    message.timestamp_spec(),
                    message@,
                ),
    {
        if inlet_index.0 == 0 {
            context.send_message_to_named_receivers(name_as_str(&self.name), message)
        } else if inlet_index.0 == 1 {
            match message.get_symbol(0) {
                Some(symbol) => {
                    self.name = name_from(symbol);
                },
                None => {},
            }
            Vec::new()
        } else {
            Vec::new()
        }
    }

    /// The written form of this send: its label and its name
    pub fn to_text(&self) -> (text: String)
        ensures
            text@ == "send "@ + self.name_spec(),
    {
        let mut text = String::from_str("send ");
        text.append(name_as_str(&self.name));
        text
    }
}

} // verus!
