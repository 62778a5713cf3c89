use rosav::acquisitors::file_reader::FileReaderError as FirstFileReaderError;
use rosav::file_reader::{
    connect_check, connect_result, disconnect, start_reading_check, start_reading_result,
    stop_reading, ConnectError, ContinuousError,
};
use rosav::spectrum_backend::State;
use rosav::spectrum_handler::acquisitors::file_reader::PathStatus;

#[test]
fn first_reader_connect() {
    assert_eq!(connect_check(None), Err(ConnectError::LockFailed));
    assert_eq!(connect_check(Some(State::Disconnected)), Ok(()));
    assert_eq!(connect_check(Some(State::Connected)), Err(ConnectError::ReaderAlreadyConnected));
    assert_eq!(connect_result(None), Err(ConnectError::LockFailed));
    assert_eq!(connect_result(Some(PathStatus::Inaccessible)), Err(ConnectError::PathWithoutPermission));
    assert_eq!(connect_result(Some(PathStatus::Missing)), Err(ConnectError::PathDoesNotExist));
    assert_eq!(connect_result(Some(PathStatus::NotADirectory)), Err(ConnectError::PathIsNotDir));
    assert_eq!(connect_result(Some(PathStatus::Directory)), Ok(State::Connected));
}

#[test]
fn first_reader_disconnect() {
    assert_eq!(disconnect(None), Err("Lock acquisition failed"));
    assert_eq!(disconnect(Some(State::Disconnected)), Err("Already disconnected"));
    assert_eq!(disconnect(Some(State::Reading)), Ok(State::Disconnected));
}

#[test]
fn first_reader_reading() {
    assert_eq!(start_reading_check(None), Err(ContinuousError::LockFailed));
    assert_eq!(start_reading_check(Some(State::Disconnected)), Err(ContinuousError::ReaderNotConnected));
    assert_eq!(start_reading_check(Some(State::Reading)), Err(ContinuousError::ReaderAlreadyContinuous));
    assert_eq!(start_reading_check(Some(State::Connected)), Ok(()));
    assert_eq!(start_reading_result(None), Err(ContinuousError::LockFailed));
    assert_eq!(start_reading_result(Some(false)), Err(ContinuousError::NotifyInternalError));
    assert_eq!(start_reading_result(Some(true)), Ok(State::Reading));
    assert_eq!(stop_reading(None), Err("Lock acquisition failed"));
    assert_eq!(stop_reading(Some(State::Connected)), Err("Invalid State: Not reading"));
    assert_eq!(stop_reading(Some(State::Reading)), Ok(State::Connected));
}

#[test]
fn first_reader_errors_are_distinct() {
    let all = [
        FirstFileReaderError::ReaderAlreadyConnected,
        FirstFileReaderError::ReaderAlreadyDisconnected,
        FirstFileReaderError::PathDoesNotExist,
        FirstFileReaderError::PathIsNotDir,
        FirstFileReaderError::PathWithoutPermission,
        FirstFileReaderError::ReaderAlreadyReading,
        FirstFileReaderError::NotifyInternalError,
        FirstFileReaderError::ReaderNotReading,
    ];
    for (i, a) in all.iter().enumerate() {
        for (j, b) in all.iter().enumerate() {
            assert_eq!(i == j, a == b);
        }
    }
}
