//! Clocks, lifecycle state machines, the message bus and components.

pub mod clock;
pub mod component;
pub mod fsm;
pub mod handler;
pub mod message;
pub mod msgbus;
