use vstd::prelude::*;

pub mod acquisitors;
pub mod api;
pub mod file_reader;
pub mod graph;
pub mod js_glue;
pub mod lower_bar;
pub mod seq_lemmas;
pub mod side_bar;
pub mod spectrum_backend;
pub mod spectrum_handler;
pub mod text;
pub mod trace;

verus! {

/// How serious a message sent to the interface is.
#[derive(Debug, Clone, Copy, PartialEq, Eq, Structural)]
pub enum LogType {
    Info,
    Warning,
    Error,
}

/// A message for the interface, with how serious it is.
#[derive(Debug, Clone)]
pub struct Log {
    pub msg: String,
    pub log_type: LogType,
}

pub fn new_log(msg: String, log_type: LogType) -> (log: Log)
    ensures
        log.msg@ == msg@,
        log.log_type == log_type,
{
    Log { msg, log_type }
}

/// The tag the console and log file put before a message of each kind.
pub open spec fn log_tag(log_type: LogType) -> Seq<char> {
    match log_type {
        LogType::Info => "#Info"@,
        LogType::Warning => "#Warning"@,
        LogType::Error => "#Error"@,
    }
}

/// The name of each kind, as the interface writes it.
pub open spec fn log_type_name(log_type: LogType) -> Seq<char> {
    match log_type {
        LogType::Info => "info"@,
        LogType::Warning => "warning"@,
        LogType::Error => "error"@,
    }
}

impl LogType {
    /// The name of the kind (what `to_string` gives in the interface).
    pub fn name(&self) -> (n: &'static str)
        ensures
            n@ == log_type_name(*self),
    {
        match self {
            LogType::Info => "info",
            LogType::Warning => "warning",
            LogType::Error => "error",
        }
    }

    pub fn tag(&self) -> (t: &'static str)
        ensures
            t@ == log_tag(*self),
    {
        match self {
            LogType::Info => "#Info",
            LogType::Warning => "#Warning",
            LogType::Error => "#Error",
        }
    }
}

} // verus!
