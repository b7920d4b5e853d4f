//! Supervision of a device behind a serial link: the states the device can be
//! in, the transitions between them, the classification of the lines it
//! prints, and the decisions of the connection supervisor.

use vstd::prelude::*;
use crate::config::Property;
use crate::state::StateMachine;

pub mod config;
pub mod connections;
pub mod facts;
pub mod graph;
pub mod matching;
pub mod state;
pub mod text;

pub use connections::ConnectionEvent;

verus! {

/// What a connection delivered, under the label of the connection.
#[derive(Clone, Debug, PartialEq)]
pub struct ConnectionEventData {
    pub device: String,
    pub event: ConnectionEvent,
}

/// What the machine is fed.
#[derive(Clone, Debug, PartialEq)]
pub enum Event {
    ConnectionEvent(ConnectionEventData),
}

/// Feeds what a connection delivered to the machine. A line is classified,
/// and what the machine hands out is for the caller to pass on to the
/// supervisor of the connections; bytes mean nothing to the machine.
pub fn conn_event(ev: ConnectionEventData, sm: &mut StateMachine) -> (r: Option<Vec<Property>>)
    ensures
        match ev.event {
            ConnectionEvent::NewLine(line) => old(sm)@.steps(line@, final(sm)@, r),
            ConnectionEvent::Bytes(_) => r is None && final(sm)@ == old(sm)@,
        },
        final(sm).graph() == old(sm).graph(),
{
    match ev.event {
        ConnectionEvent::NewLine(line) => sm.process_line(line.as_str()),
        ConnectionEvent::Bytes(_) => None,
    }
}

/// Feeds an event to the machine.
pub fn process_event(ev: Event, sm: &mut StateMachine) -> (r: Option<Vec<Property>>)
    ensures
        match ev {
            Event::ConnectionEvent(data) => match data.event {
                ConnectionEvent::NewLine(line) => old(sm)@.steps(line@, final(sm)@, r),
                ConnectionEvent::Bytes(_) => r is None && final(sm)@ == old(sm)@,
            },
        },
        final(sm).graph() == old(sm).graph(),
{
    match ev {
        Event::ConnectionEvent(data) => conn_event(data, sm),
    }
}

} // verus!
