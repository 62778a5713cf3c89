use vstd::prelude::*;

use crate::spectrum_handler::State;
use crate::spectrum_handler::acquisitors::file_reader::PathStatus;

verus! {

// A file reader that reports failures to take its locks. A state or a check given as `None`
// stands for a lock that could not be taken.

/// Failures of `connect`.
#[derive(Debug, Clone, Copy, PartialEq, Eq, Structural)]
pub enum ConnectError {
    LockFailed,
    ReaderAlreadyConnected,
    PathDoesNotExist,
    PathIsNotDir,
    PathWithoutPermission,
}

/// Failures of `start_reading`.
#[derive(Debug, Clone, Copy, PartialEq, Eq, Structural)]
pub enum ContinuousError {
    LockFailed,
    ReaderNotConnected,
    ReaderAlreadyContinuous,
    NotifyInternalError,
}

/// The first step of `connect`, on the state read under its lock.
pub fn connect_check(state: Option<State>) -> (r: Result<(), ConnectError>)
    ensures
        r == match state {
            None => Err(ConnectError::LockFailed),
            Some(State::Disconnected) => Ok(()),
            Some(_) => Err(ConnectError::ReaderAlreadyConnected),
        },
{
    match state {
        None => Err(ConnectError::LockFailed),
        Some(State::Disconnected) => Ok(()),
        Some(_) => Err(ConnectError::ReaderAlreadyConnected),
    }
}

/// The second step of `connect`, on what the check of the configured folder found.
pub fn connect_result(path: Option<PathStatus>) -> (r: Result<State, ConnectError>)
    ensures
        r == match path {
            None => Err(ConnectError::LockFailed),
            Some(PathStatus::Inaccessible) => Err(ConnectError::PathWithoutPermission),
            Some(PathStatus::Missing) => Err(ConnectError::PathDoesNotExist),
            Some(PathStatus::NotADirectory) => Err(ConnectError::PathIsNotDir),
            Some(PathStatus::Directory) => Ok(State::Connected),
        },
{
    match path {
        None => Err(ConnectError::LockFailed),
        Some(PathStatus::Inaccessible) => Err(ConnectError::PathWithoutPermission),
        Some(PathStatus::Missing) => Err(ConnectError::PathDoesNotExist),
        Some(PathStatus::NotADirectory) => Err(ConnectError::PathIsNotDir),
        Some(PathStatus::Directory) => Ok(State::Connected),
    }
}

/// `disconnect`, on the state read under its lock.
pub fn disconnect(state: Option<State>) -> (r: Result<State, &'static str>)
    ensures
        match state {
            None => r is Err && r->Err_0@ == "Lock acquisition failed"@,
            Some(State::Disconnected) => r is Err && r->Err_0@ == "Already disconnected"@,
            Some(_) => r == Ok::<State, &'static str>(State::Disconnected),
        },
{
    match state {
        None => Err("Lock acquisition failed"),
        Some(State::Disconnected) => Err("Already disconnected"),
        Some(_) => Ok(State::Disconnected),
    }
}

/// The first step of `start_reading`, on the state read under its lock.
pub fn start_reading_check(state: Option<State>) -> (r: Result<(), ContinuousError>)
    ensures
        r == match state {
            None => Err(ContinuousError::LockFailed),
            Some(State::Disconnected) => Err(ContinuousError::ReaderNotConnected),
            Some(State::Reading) => Err(ContinuousError::ReaderAlreadyContinuous),
            Some(State::Connected) => Ok(()),
        },
{
    match state {
        None => Err(ContinuousError::LockFailed),
        Some(State::Disconnected) => Err(ContinuousError::ReaderNotConnected),
        Some(State::Reading) => Err(ContinuousError::ReaderAlreadyContinuous),
        Some(State::Connected) => Ok(()),
    }
}

/// The second step of `start_reading`, on whether the folder watcher was created and started
/// once the configuration was read under its lock.
pub fn start_reading_result(watcher_started: Option<bool>) -> (r: Result<State, ContinuousError>)
    ensures
        r == match watcher_started {
            None => Err(ContinuousError::LockFailed),
            Some(false) => Err(ContinuousError::NotifyInternalError),
            Some(true) => Ok(State::Reading),
        },
{
    match watcher_started {
        None => Err(ContinuousError::LockFailed),
        Some(false) => Err(ContinuousError::NotifyInternalError),
        Some(true) => Ok(State::Reading),
    }
}

/// `stop_reading`, on the state read under its lock.
pub fn stop_reading(state: Option<State>) -> (r: Result<State, &'static str>)
    ensures
        match state {
            None => r is Err && r->Err_0@ == "Lock acquisition failed"@,
            Some(State::Reading) => r == Ok::<State, &'static str>(State::Connected),
            Some(_) => r is Err && r->Err_0@ == "Invalid State: Not reading"@,
        },
{
    match state {
        None => Err("Lock acquisition failed"),
        Some(State::Reading) => Ok(State::Connected),
        Some(_) => Err("Invalid State: Not reading"),
    }
}

} // verus!
