//! Messages that components exchange.

use crate::actor::fsm::ComponentState;
use crate::instrument::InstrumentId;
use vstd::prelude::*;

verus! {

/// A command to shut down the system.
#[derive(Debug)]
pub struct ShutdownSystem {
    pub reason: String,
}

/// A component has changed its state.
#[derive(Debug)]
pub struct ComponentStateChanged {
    pub component_id: u64,
    pub component_name: String,
    pub state: ComponentState,
}

/// What a change of state says.
pub struct StateChange {
    pub component_id: u64,
    pub component_name: Seq<char>,
    pub state: ComponentState,
}

impl View for ComponentStateChanged {
    type V = StateChange;

    open spec fn view(&self) -> StateChange {
        StateChange {
            component_id: self.component_id,
            component_name: self.component_name@,
            state: self.state,
        }
    }
}

impl Clone for ComponentStateChanged {
    fn clone(&self) -> (r: Self)
        ensures
            r@ == self@,
    {
        ComponentStateChanged {
            component_id: self.component_id,
            component_name: self.component_name.clone(),
            state: self.state,
        }
    }
}

/// Whether the risk engine lets orders through.
#[derive(Debug, Clone, Copy, PartialEq, Eq, Structural)]
pub enum TradingState {
    Active,
    Halted,
    ReduceOnly,
}

impl Default for TradingState {
    fn default() -> (r: Self)
        ensures
            r == TradingState::Active,
    {
        TradingState::Active
    }
}

/// The trading state has changed.
#[derive(Debug)]
pub struct TradingStateChanged {
    pub component_id: u64,
    pub state: TradingState,
}

/// The status of an instrument has changed.
#[derive(Debug)]
pub struct InstrumentStatus {
    pub instrument_id: InstrumentId,
    pub status: String,
    pub ts_event: u64,
}

/// An instrument has closed. The price is in nanounits.
#[derive(Debug)]
pub struct InstrumentClose {
    pub instrument_id: InstrumentId,
    pub close_price: i64,
    pub ts_event: u64,
}

/// A funding rate, in nanounits.
#[derive(Debug)]
pub struct FundingRateUpdate {
    pub instrument_id: InstrumentId,
    pub rate: i64,
    pub ts_event: u64,
}

/// A mark price, in nanounits.
#[derive(Debug)]
pub struct MarkPriceUpdate {
    pub instrument_id: InstrumentId,
    pub mark_price: i64,
    pub ts_event: u64,
}

/// An index price, in nanounits.
#[derive(Debug)]
pub struct IndexPriceUpdate {
    pub instrument_id: InstrumentId,
    pub index_price: i64,
    pub ts_event: u64,
}

/// A message on the bus. `X` is what an application adds.
#[derive(Debug)]
pub enum SystemMessage<X> {
    Shutdown(ShutdownSystem),
    StateChanged(ComponentStateChanged),
    TradingStateChanged(TradingStateChanged),
    Custom(X),
}

/// What can be put on the bus and taken from it.
pub trait Message<X>: Sized {
    /// The message on the bus.
    spec fn packed(self) -> SystemMessage<X>;

    /// The message that a bus message holds, where it is of this kind.
    spec fn unpacked(m: SystemMessage<X>) -> Option<Self>;

    /// What was put on the bus is what is taken from it.
    proof fn reads_back(self)
        ensures
            Self::unpacked(self.packed()) == Some(self),
    ;

    /// The message that a bus message holds, where it is of this kind.
    fn from_any(m: &SystemMessage<X>) -> (r: Option<&Self>)
        ensures
            match r {
                Some(x) => Self::unpacked(*m) == Some(*x),
                None => Self::unpacked(*m) is None,
            },
    ;
}

/// Messages as bus messages.
pub trait AsAny<X>: Message<X> {
    /// The message on the bus.
    fn as_any(self) -> (r: SystemMessage<X>)
        ensures
            r == self.packed(),
    ;
}

/// The message of a kind that a bus message holds.
pub fn downcast<T: Message<X>, X>(msg: &SystemMessage<X>) -> (r: Option<&T>)
    ensures
        match r {
            Some(x) => T::unpacked(*msg) == Some(*x),
            None => T::unpacked(*msg) is None,
        },
{
    T::from_any(msg)
}

impl<X> Message<X> for ShutdownSystem {
    open spec fn packed(self) -> SystemMessage<X> {
        SystemMessage::Shutdown(self)
    }

    open spec fn unpacked(m: SystemMessage<X>) -> Option<Self> {
        match m {
            SystemMessage::Shutdown(s) => Some(s),
            _ => None,
        }
    }

    proof fn reads_back(self) {
    }

    fn from_any(m: &SystemMessage<X>) -> (r: Option<&Self>) {
        match m {
            SystemMessage::Shutdown(s) => Some(s),
            _ => None,
        }
    }
}

impl<X> AsAny<X> for ShutdownSystem {
    fn as_any(self) -> (r: SystemMessage<X>) {
        SystemMessage::Shutdown(self)
    }
}

impl<X> Message<X> for ComponentStateChanged {
    open spec fn packed(self) -> SystemMessage<X> {
        SystemMessage::StateChanged(self)
    }

    open spec fn unpacked(m: SystemMessage<X>) -> Option<Self> {
        match m {
            SystemMessage::StateChanged(s) => Some(s),
            _ => None,
        }
    }

    proof fn reads_back(self) {
    }

    fn from_any(m: &SystemMessage<X>) -> (r: Option<&Self>) {
        match m {
            SystemMessage::StateChanged(s) => Some(s),
            _ => None,
        }
    }
}

impl<X> AsAny<X> for ComponentStateChanged {
    fn as_any(self) -> (r: SystemMessage<X>) {
        SystemMessage::StateChanged(self)
    }
}

impl<X> Message<X> for TradingStateChanged {
    open spec fn packed(self) -> SystemMessage<X> {
        SystemMessage::TradingStateChanged(self)
    }

    open spec fn unpacked(m: SystemMessage<X>) -> Option<Self> {
        match m {
            SystemMessage::TradingStateChanged(s) => Some(s),
            _ => None,
        }
    }

    proof fn reads_back(self) {
    }

    fn from_any(m: &SystemMessage<X>) -> (r: Option<&Self>) {
        match m {
            SystemMessage::TradingStateChanged(s) => Some(s),
            _ => None,
        }
    }
}

impl<X> AsAny<X> for TradingStateChanged {
    fn as_any(self) -> (r: SystemMessage<X>) {
        SystemMessage::TradingStateChanged(self)
    }
}

/// A message that is put on the bus is taken from it as it was, and is never taken for a message of
/// another kind.
pub proof fn message_is_taken_as_it_was<X>(
    a: ShutdownSystem,
    b: ComponentStateChanged,
    c: TradingStateChanged,
)
    ensures
        <ShutdownSystem as Message<X>>::unpacked(a.packed()) == Some(a),
        <ComponentStateChanged as Message<X>>::unpacked(b.packed()) == Some(b),
        <TradingStateChanged as Message<X>>::unpacked(c.packed()) == Some(c),
        <ShutdownSystem as Message<X>>::unpacked(b.packed()) is None,
        <ShutdownSystem as Message<X>>::unpacked(c.packed()) is None,
        <ComponentStateChanged as Message<X>>::unpacked(a.packed()) is None,
        <ComponentStateChanged as Message<X>>::unpacked(c.packed()) is None,
        <TradingStateChanged as Message<X>>::unpacked(a.packed()) is None,
        <TradingStateChanged as Message<X>>::unpacked(b.packed()) is None,
{
}

} // verus!
