//! Pure Data objects

use vstd::prelude::*;

verus! {

/// All supported object types
#[allow(non_camel_case_types)]
#[derive(Copy, Clone, Debug, PartialEq, Eq, Structural, Hash)]
pub enum Type {
    /// DSP: ADC
    DSP_ADC,
    /// DSP: ADD
    DSP_ADD,
    /// DSP: Bandpass filter
    DSP_BANDPASS_FILTER,
    /// DSP: Catch
    DSP_CATCH,
    /// DSP: Clip
    DSP_CLIP,
    /// DSP: Cosine
    DSP_COSINE,
    /// DSP: DAC
    DSP_DAC,
    /// DSP: Table play
    DSP_TABLE_PLAY,
    /// DSP: Delay read
    DSP_DELAY_READ,
    /// DSP: Delay write
    DSP_DELAY_WRITE,
    /// DSP: Inlet
    DSP_INLET,
    /// DSP: Outlet
    DSP_OUTLET,
    /// DSP: Receive
    DSP_RECEIVE,
    /// DSP: Send
    DSP_SEND,
    /// DSP: Table read
    DSP_TABLE_READ,
    /// DSP: Table read 4
    DSP_TABLE_READ4,
    /// DSP: Throw
    DSP_THROW,
    /// DSP: Variable delay
    DSP_VARIABLE_DELAY,
    /// Message inlet
    MESSAGE_INLET,
    /// Message note in
    MESSAGE_NOTEIN,
    /// Message outlet
    MESSAGE_OUTLET,
    /// Message receive
    MESSAGE_RECEIVE,
    /// Message send
    MESSAGE_SEND,
    /// Message table
    MESSAGE_TABLE,
    /// Message table read
    MESSAGE_TABLE_READ,
    /// Message table write
    MESSAGE_TABLE_WRITE,
    /// Pure Data objects
    PURE_DATA,
    /// Unknown or unimportant
    UNKNOWN,
}

impl Type {
    /// Does an object of this type process audio samples?
    pub open spec fn processes_audio(self) -> bool {
        match self {
            Type::DSP_ADC
            | Type::DSP_ADD
            | Type::DSP_BANDPASS_FILTER
            | Type::DSP_CATCH
            | Type::DSP_CLIP
            | Type::DSP_COSINE
            | Type::DSP_DAC
            | Type::DSP_TABLE_PLAY
            | Type::DSP_DELAY_READ
            | Type::DSP_DELAY_WRITE
            | Type::DSP_INLET
            | Type::DSP_OUTLET
            | Type::DSP_RECEIVE
            | Type::DSP_SEND
            | Type::DSP_TABLE_READ
            | Type::DSP_TABLE_READ4
            | Type::DSP_THROW
            | Type::DSP_VARIABLE_DELAY => true,
            _ => false,
        }
    }

    /// Does an object of this type end the search for a process order,
    /// whatever it is connected to? The senders do: `send`, `send~` and
    /// `throw~` hand on what they get by name, not by wire.
    pub open spec fn ends_order(self) -> bool {
        self == Type::MESSAGE_SEND || self == Type::DSP_SEND || self == Type::DSP_THROW
    }

    /// Is this the type of an inlet of a graph?
    pub open spec fn is_inlet(self) -> bool {
        self == Type::MESSAGE_INLET || self == Type::DSP_INLET
    }

    /// Is this the type of an outlet of a graph?
    pub open spec fn is_outlet(self) -> bool {
        self == Type::MESSAGE_OUTLET || self == Type::DSP_OUTLET
    }

    /// Does an object of this type process audio samples?
    pub fn does_process_audio(self) -> (b: bool)
        ensures
            b == self.processes_audio(),
    {
        match self {
            Type::DSP_ADC
            | Type::DSP_ADD
            | Type::DSP_BANDPASS_FILTER
            | Type::DSP_CATCH
            | Type::DSP_CLIP
            | Type::DSP_COSINE
            | Type::DSP_DAC
            | Type::DSP_TABLE_PLAY
            | Type::DSP_DELAY_READ
            | Type::DSP_DELAY_WRITE
            | Type::DSP_INLET
            | Type::DSP_OUTLET
            | Type::DSP_RECEIVE
            | Type::DSP_SEND
            | Type::DSP_TABLE_READ
            | Type::DSP_TABLE_READ4
            | Type::DSP_THROW
            | Type::DSP_VARIABLE_DELAY => true,
            _ => false,
        }
    }

    /// Does an object of this type end the search for a process order?
    pub fn is_order_end(self) -> (b: bool)
        ensures
            b == self.ends_order(),
    {
        matches!(self, Type::MESSAGE_SEND | Type::DSP_SEND | Type::DSP_THROW)
    }

    /// Is this the type of an inlet of a graph?
    pub fn is_graph_inlet(self) -> (b: bool)
        ensures
            b == self.is_inlet(),
    {
        matches!(self, Type::MESSAGE_INLET | Type::DSP_INLET)
    }

    /// Is this the type of an outlet of a graph?
    pub fn is_graph_outlet(self) -> (b: bool)
        ensures
            b == self.is_outlet(),
    {
        matches!(self, Type::MESSAGE_OUTLET | Type::DSP_OUTLET)
    }
}

} // verus!
