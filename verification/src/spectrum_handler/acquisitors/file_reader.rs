use vstd::prelude::*;

use crate::spectrum_handler::State;

verus! {

/// Failures of the file reader.
#[derive(Debug, Clone, Copy, PartialEq, Eq, Structural)]
pub enum FileReaderError {
    ReaderAlreadyConnected,
    ReaderAlreadyDisconnected,
    PathDoesNotExist,
    PathIsNotDir,
    PathWithoutPermission,
    ReaderAlreadyReading,
    NotifyInternalError,
    ReaderNotConnected,
    ReaderNotReading,
}

pub open spec fn file_reader_error_message(e: FileReaderError) -> Seq<char> {
    match e {
        FileReaderError::ReaderAlreadyConnected => "Leitor já conectado"@,
        FileReaderError::ReaderAlreadyDisconnected => "Leitor já desconectado"@,
        FileReaderError::PathDoesNotExist => "Caminho não existe"@,
        FileReaderError::PathIsNotDir => "Caminho não é pasta "@,
        FileReaderError::PathWithoutPermission => "Permissão negada ao caminho"@,
        FileReaderError::ReaderAlreadyReading => "Leitor já está lendo"@,
        FileReaderError::NotifyInternalError => "Erro interno da biblioteca Notify"@,
        FileReaderError::ReaderNotConnected => "Leitor não está conectado"@,
        FileReaderError::ReaderNotReading => "Leitor não está lendo"@,
    }
}

impl FileReaderError {
    /// The message shown for the error.
    pub fn message(&self) -> (m: &'static str)
        ensures
            m@ == file_reader_error_message(*self),
    {
        match self {
            FileReaderError::ReaderAlreadyConnected => "Leitor já conectado",
            FileReaderError::ReaderAlreadyDisconnected => "Leitor já desconectado",
            FileReaderError::PathDoesNotExist => "Caminho não existe",
            FileReaderError::PathIsNotDir => "Caminho não é pasta ",
            FileReaderError::PathWithoutPermission => "Permissão negada ao caminho",
            FileReaderError::ReaderAlreadyReading => "Leitor já está lendo",
            FileReaderError::NotifyInternalError => "Erro interno da biblioteca Notify",
            FileReaderError::ReaderNotConnected => "Leitor não está conectado",
            FileReaderError::ReaderNotReading => "Leitor não está lendo",
        }
    }
}

/// What a check of the watched folder found.
#[derive(Debug, Clone, Copy, PartialEq, Eq, Structural)]
pub enum PathStatus {
    /// Whether the path exists could not be told (permission denied).
    Inaccessible,
    Missing,
    NotADirectory,
    Directory,
}

/// The first step of `connect`: only a disconnected reader may connect.
pub open spec fn connect_check_result(state: State) -> Result<(), FileReaderError> {
    if state == State::Disconnected {
        Ok(())
    } else {
        Err(FileReaderError::ReaderAlreadyConnected)
    }
}

/// The second step of `connect`: the state reached given what the check of the watched folder
/// found.
pub open spec fn connect_outcome(path: PathStatus) -> Result<State, FileReaderError> {
    match path {
        PathStatus::Inaccessible => Err(FileReaderError::PathWithoutPermission),
        PathStatus::Missing => Err(FileReaderError::PathDoesNotExist),
        PathStatus::NotADirectory => Err(FileReaderError::PathIsNotDir),
        PathStatus::Directory => Ok(State::Connected),
    }
}

/// `disconnect`: any connected reader goes back to disconnected; a disconnected one reports
/// the error `ReaderAlreadyDisconnected`.
pub open spec fn disconnect_outcome(state: State) -> Result<State, FileReaderError> {
    if state == State::Disconnected {
        Err(FileReaderError::ReaderAlreadyDisconnected)
    } else {
        Ok(State::Disconnected)
    }
}

/// The first step of `start_reading`: only a connected reader may start to read.
pub open spec fn start_check_result(state: State) -> Result<(), FileReaderError> {
    match state {
        State::Disconnected => Err(FileReaderError::ReaderNotConnected),
        State::Reading => Err(FileReaderError::ReaderAlreadyReading),
        State::Connected => Ok(()),
    }
}

/// The second step of `start_reading`: the state reached given whether the folder watcher
/// could be created and started.
pub open spec fn start_outcome(watcher_started: bool) -> Result<State, FileReaderError> {
    if watcher_started {
        Ok(State::Reading)
    } else {
        Err(FileReaderError::NotifyInternalError)
    }
}

/// `stop_reading`: a reading reader goes back to connected.
pub open spec fn stop_outcome(state: State) -> Result<State, FileReaderError> {
    if state == State::Reading {
        Ok(State::Connected)
    } else {
        Err(FileReaderError::ReaderNotReading)
    }
}

pub fn connect_check(state: State) -> (r: Result<(), FileReaderError>)
    ensures
        r == connect_check_result(state),
{
    match state {
        State::Disconnected => Ok(()),
        _ => Err(FileReaderError::ReaderAlreadyConnected),
    }
}

pub fn connect_result(path: PathStatus) -> (r: Result<State, FileReaderError>)
    ensures
        r == connect_outcome(path),
{
    match path {
        PathStatus::Inaccessible => Err(FileReaderError::PathWithoutPermission),
        PathStatus::Missing => Err(FileReaderError::PathDoesNotExist),
        PathStatus::NotADirectory => Err(FileReaderError::PathIsNotDir),
        PathStatus::Directory => Ok(State::Connected),
    }
}

pub fn disconnect(state: State) -> (r: Result<State, FileReaderError>)
    ensures
        r == disconnect_outcome(state),
{
    match state {
        State::Disconnected => Err(FileReaderError::ReaderAlreadyDisconnected),
        _ => Ok(State::Disconnected),
    }
}

pub fn start_reading_check(state: State) -> (r: Result<(), FileReaderError>)
    ensures
        r == start_check_result(state),
{
    match state {
        State::Disconnected => Err(FileReaderError::ReaderNotConnected),
        State::Reading => Err(FileReaderError::ReaderAlreadyReading),
        State::Connected => Ok(()),
    }
}

pub fn start_reading_result(watcher_started: bool) -> (r: Result<State, FileReaderError>)
    ensures
        r == start_outcome(watcher_started),
{
    if watcher_started {
        Ok(State::Reading)
    } else {
        Err(FileReaderError::NotifyInternalError)
    }
}

pub fn stop_reading(state: State) -> (r: Result<State, FileReaderError>)
    ensures
        r == stop_outcome(state),
{
    match state {
        State::Reading => Ok(State::Connected),
        _ => Err(FileReaderError::ReaderNotReading),
    }
}

/// The state after the watcher handled a file event: an error disconnects the reader, and a
/// single read ends after its first success.
pub fn after_watch_event(state: State, handled: bool, single_read: bool) -> (next: State)
    ensures
        next == if !handled {
            State::Disconnected
        } else if single_read {
            State::Connected
        } else {
            state
        },
{
    if !handled {
        State::Disconnected
    } else if single_read {
        State::Connected
    } else {
        state
    }
}

// Region: reading a new file ---------------------------------------------------------------

/// Times a new file is tried before the reader gives up on it.
pub const OPEN_ATTEMPTS: u32 = 10;

/// What a try to open a new file found.
#[derive(Debug, Clone, Copy, PartialEq, Eq, Structural)]
pub enum OpenOutcome {
    Opened,
    /// Another process holds the file (the operating system's error 32).
    InUse,
    Failed,
}

/// What the reader does after the try number `attempt` (from 0) to open a new file.
#[derive(Debug, Clone, Copy, PartialEq, Eq, Structural)]
pub enum OpenStep {
    /// Read the file.
    Read,
    /// Wait a moment and try again.
    Retry,
    /// Report an error.
    GiveUp,
}

pub open spec fn open_step_result(attempt: int, outcome: OpenOutcome) -> OpenStep {
    match outcome {
        OpenOutcome::Opened => OpenStep::Read,
        OpenOutcome::Failed => OpenStep::GiveUp,
        OpenOutcome::InUse => if attempt + 1 == OPEN_ATTEMPTS {
            OpenStep::GiveUp
        } else {
            OpenStep::Retry
        },
    }
}

pub fn open_step(attempt: u32, outcome: OpenOutcome) -> (step: OpenStep)
    requires
        attempt < OPEN_ATTEMPTS,
    ensures
        step == open_step_result(attempt as int, outcome),
{
    match outcome {
        OpenOutcome::Opened => OpenStep::Read,
        OpenOutcome::Failed => OpenStep::GiveUp,
        OpenOutcome::InUse => if attempt == OPEN_ATTEMPTS - 1 {
            OpenStep::GiveUp
        } else {
            OpenStep::Retry
        },
    }
}

/// A file is tried at most `OPEN_ATTEMPTS` times: only a file held by another process is
/// tried again, and never after the last try.
pub proof fn law_open_attempts(attempt: int, outcome: OpenOutcome)
    requires
        0 <= attempt < OPEN_ATTEMPTS,
    ensures
        open_step_result(attempt, outcome) == OpenStep::Retry <==> (outcome == OpenOutcome::InUse
            && attempt + 1 < OPEN_ATTEMPTS),
        open_step_result(attempt, outcome) == OpenStep::Read <==> outcome == OpenOutcome::Opened,
{
}

// Region: laws of the reader's life cycle -------------------------------------------------

/// A reader connects only when it was disconnected and its folder is a directory; it then is
/// connected, and disconnecting brings it back to disconnected.
pub proof fn law_connect_then_disconnect(state: State, path: PathStatus)
    requires
        connect_check_result(state) is Ok,
        connect_outcome(path) is Ok,
    ensures
        state == State::Disconnected,
        path == PathStatus::Directory,
        connect_outcome(path) == Ok::<State, FileReaderError>(State::Connected),
        disconnect_outcome(State::Connected) == Ok::<State, FileReaderError>(State::Disconnected),
{
}

/// A reader starts to read only when it was connected and its watcher started; stopping then
/// brings it back to connected.
pub proof fn law_start_then_stop(state: State, watcher_started: bool)
    requires
        start_check_result(state) is Ok,
        start_outcome(watcher_started) is Ok,
    ensures
        state == State::Connected,
        watcher_started,
        start_outcome(watcher_started) == Ok::<State, FileReaderError>(State::Reading),
        stop_outcome(State::Reading) == Ok::<State, FileReaderError>(State::Connected),
{
}

/// Every step that succeeds moves the reader to another state: none of them succeeds without
/// an effect.
pub proof fn law_successful_steps_change_state(state: State)
    ensures
        disconnect_outcome(state) is Ok ==> disconnect_outcome(state)->Ok_0 != state,
        stop_outcome(state) is Ok ==> stop_outcome(state)->Ok_0 != state,
        start_check_result(state) is Ok ==> start_outcome(true)->Ok_0 != state,
        connect_check_result(state) is Ok ==> connect_outcome(PathStatus::Directory)->Ok_0 != state,
{
}

} // verus!
