use vstd::prelude::*;

verus! {

/// Failures of a reader of spectrum files in a watched folder: connecting to the folder,
/// disconnecting, and starting or stopping the watch.
#[derive(Debug, Clone, Copy, PartialEq, Eq, Structural)]
pub enum FileReaderError {
    ReaderAlreadyConnected,
    ReaderAlreadyDisconnected,
    PathDoesNotExist,
    PathIsNotDir,
    PathWithoutPermission,
    ReaderAlreadyReading,
    NotifyInternalError,
    ReaderNotReading,
}

} // verus!
