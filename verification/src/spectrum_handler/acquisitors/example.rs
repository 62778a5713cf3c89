use vstd::prelude::*;

use crate::spectrum_handler::State;

verus! {

/// Failures of the example acquisitor.
#[derive(Debug, Clone, Copy, PartialEq, Eq, Structural)]
pub enum ExampleErrors {
    ConnectFail,
}

impl ExampleErrors {
    /// The message shown for the error.
    pub fn message(&self) -> (m: &'static str)
        ensures
            m@ == "Não conectou"@,
    {
        "Não conectou"
    }
}

/// The state of the example acquisitor; while reading it also holds the sender of its
/// configurations, which is not modelled here.
#[derive(Debug, Clone, Copy, PartialEq, Eq, Structural)]
pub enum ExampleState {
    Disconnected,
    Connected(u32),
    Reading,
}

/// The connected state `connect` enters.
pub const CONNECTED_ON_CONNECT: u32 = 3;

/// The connected state `stop_reading` enters.
pub const CONNECTED_ON_STOP: u32 = 9;

/// `connect`: only a disconnected acquisitor connects.
pub open spec fn connect_outcome(state: ExampleState) -> Result<ExampleState, ExampleErrors> {
    if state == ExampleState::Disconnected {
        Ok(ExampleState::Connected(CONNECTED_ON_CONNECT))
    } else {
        Err(ExampleErrors::ConnectFail)
    }
}

/// `disconnect`: any other state goes back to disconnected.
pub open spec fn disconnect_outcome(state: ExampleState) -> Result<ExampleState, ExampleErrors> {
    if state == ExampleState::Disconnected {
        Err(ExampleErrors::ConnectFail)
    } else {
        Ok(ExampleState::Disconnected)
    }
}

/// `start_reading`: a single read leaves the state as it is; a continuous read enters the
/// reading state, whatever the state was.
pub open spec fn start_outcome(state: ExampleState, single_read: bool) -> ExampleState {
    if single_read {
        state
    } else {
        ExampleState::Reading
    }
}

/// `stop_reading`: always ends connected.
pub open spec fn stop_outcome(state: ExampleState) -> ExampleState {
    ExampleState::Connected(CONNECTED_ON_STOP)
}

pub fn connect(state: ExampleState) -> (r: Result<ExampleState, ExampleErrors>)
    ensures
        r == connect_outcome(state),
{
    match state {
        ExampleState::Disconnected => Ok(ExampleState::Connected(CONNECTED_ON_CONNECT)),
        _ => Err(ExampleErrors::ConnectFail),
    }
}

pub fn disconnect(state: ExampleState) -> (r: Result<ExampleState, ExampleErrors>)
    ensures
        r == disconnect_outcome(state),
{
    match state {
        ExampleState::Disconnected => Err(ExampleErrors::ConnectFail),
        _ => Ok(ExampleState::Disconnected),
    }
}

pub fn start_reading(state: ExampleState, single_read: bool) -> (next: ExampleState)
    ensures
        next == start_outcome(state, single_read),
{
    if single_read {
        state
    } else {
        ExampleState::Reading
    }
}

pub fn stop_reading(state: ExampleState) -> (next: ExampleState)
    ensures
        next == stop_outcome(state),
{
    ExampleState::Connected(CONNECTED_ON_STOP)
}

/// Connecting and then disconnecting brings a disconnected acquisitor back to disconnected,
/// and connecting fails on any other state.
pub proof fn law_connect_then_disconnect(state: ExampleState)
    ensures
        connect_outcome(state) is Ok <==> state == ExampleState::Disconnected,
        connect_outcome(state) is Ok ==> disconnect_outcome(connect_outcome(state)->Ok_0)
            == Ok::<ExampleState, ExampleErrors>(state),
{
}

/// A continuous read followed by a stop leaves the acquisitor connected, whatever state the
/// read started from.
pub proof fn law_read_then_stop(state: ExampleState)
    ensures
        get_simplified_state_spec(stop_outcome(start_outcome(state, false))) == State::Connected,
        start_outcome(state, false) == ExampleState::Reading,
{
}

/// The state without what it holds.
pub open spec fn get_simplified_state_spec(state: ExampleState) -> State {
    match state {
        ExampleState::Disconnected => State::Disconnected,
        ExampleState::Connected(_) => State::Connected,
        ExampleState::Reading => State::Reading,
    }
}

/// The state without what it holds.
pub fn get_simplified_state(state: ExampleState) -> (s: State)
    ensures
        s == get_simplified_state_spec(state),
{
    match state {
        ExampleState::Disconnected => State::Disconnected,
        ExampleState::Connected(_) => State::Connected,
        ExampleState::Reading => State::Reading,
    }
}

/// Whether the reading loop must stop because an automatic save failed: it then ends
/// disconnected.
pub fn after_auto_save(state: ExampleState, saving: bool, saved: bool) -> (next: ExampleState)
    ensures
        next == if saving && !saved {
            ExampleState::Disconnected
        } else {
            state
        },
{
    if saving && !saved {
        ExampleState::Disconnected
    } else {
        state
    }
}

} // verus!
