use rosav::spectrum_handler::acquisitors::auto_save_file_name;
use rosav::spectrum_handler::acquisitors::example::{
    self, after_auto_save, get_simplified_state, ExampleErrors, ExampleState,
    CONNECTED_ON_CONNECT, CONNECTED_ON_STOP,
};
use rosav::spectrum_handler::acquisitors::file_reader::{
    self as reader, after_watch_event, open_step, FileReaderError, OpenOutcome, OpenStep,
    PathStatus, OPEN_ATTEMPTS,
};
use rosav::spectrum_handler::acquisitors::ibsen_imon::{
    self as imon, ack_step, bell_step, check_dark_pixels, decode_pixel_readings, decode_u16_le,
    is_imon_response, parse_pixel_count, reading_attempt, update_config, ImonError, ReadAttempt,
    WaitStep, ACK, ACK_SEARCH_LIMIT, BELL, BELL_SEARCH_LIMIT, NACK, READ_ATTEMPTS,
};
use rosav::spectrum_handler::State;

#[test]
fn file_reader_connects_from_disconnected_only() {
    assert_eq!(reader::connect_check(State::Disconnected), Ok(()));
    assert_eq!(reader::connect_check(State::Connected), Err(FileReaderError::ReaderAlreadyConnected));
    assert_eq!(reader::connect_check(State::Reading), Err(FileReaderError::ReaderAlreadyConnected));
}

#[test]
fn file_reader_connection_depends_on_the_folder() {
    assert_eq!(reader::connect_result(PathStatus::Directory), Ok(State::Connected));
    assert_eq!(reader::connect_result(PathStatus::Missing), Err(FileReaderError::PathDoesNotExist));
    assert_eq!(reader::connect_result(PathStatus::NotADirectory), Err(FileReaderError::PathIsNotDir));
    assert_eq!(reader::connect_result(PathStatus::Inaccessible), Err(FileReaderError::PathWithoutPermission));
}

#[test]
fn file_reader_disconnect_and_reading() {
    assert_eq!(reader::disconnect(State::Connected), Ok(State::Disconnected));
    assert_eq!(reader::disconnect(State::Reading), Ok(State::Disconnected));
    assert_eq!(reader::disconnect(State::Disconnected), Err(FileReaderError::ReaderAlreadyDisconnected));
    assert_eq!(reader::start_reading_check(State::Connected), Ok(()));
    assert_eq!(reader::start_reading_check(State::Disconnected), Err(FileReaderError::ReaderNotConnected));
    assert_eq!(reader::start_reading_check(State::Reading), Err(FileReaderError::ReaderAlreadyReading));
    assert_eq!(reader::start_reading_result(true), Ok(State::Reading));
    assert_eq!(reader::start_reading_result(false), Err(FileReaderError::NotifyInternalError));
    assert_eq!(reader::stop_reading(State::Reading), Ok(State::Connected));
    assert_eq!(reader::stop_reading(State::Connected), Err(FileReaderError::ReaderNotReading));
}

#[test]
fn file_reader_life_cycle_round_trips() {
    let mut state = State::Disconnected;
    reader::connect_check(state).unwrap();
    state = reader::connect_result(PathStatus::Directory).unwrap();
    reader::start_reading_check(state).unwrap();
    state = reader::start_reading_result(true).unwrap();
    assert_eq!(state, State::Reading);
    state = reader::stop_reading(state).unwrap();
    assert_eq!(state, State::Connected);
    state = reader::disconnect(state).unwrap();
    assert_eq!(state, State::Disconnected);
}

#[test]
fn file_reader_watch_events() {
    assert_eq!(after_watch_event(State::Reading, false, false), State::Disconnected);
    assert_eq!(after_watch_event(State::Reading, true, true), State::Connected);
    assert_eq!(after_watch_event(State::Reading, true, false), State::Reading);
}

#[test]
fn file_reader_error_messages() {
    assert_eq!(FileReaderError::ReaderAlreadyConnected.message(), "Leitor já conectado");
    assert_eq!(FileReaderError::ReaderAlreadyDisconnected.message(), "Leitor já desconectado");
    assert_eq!(FileReaderError::PathDoesNotExist.message(), "Caminho não existe");
    assert_eq!(FileReaderError::PathIsNotDir.message(), "Caminho não é pasta ");
    assert_eq!(FileReaderError::PathWithoutPermission.message(), "Permissão negada ao caminho");
    assert_eq!(FileReaderError::ReaderAlreadyReading.message(), "Leitor já está lendo");
    assert_eq!(FileReaderError::NotifyInternalError.message(), "Erro interno da biblioteca Notify");
    assert_eq!(FileReaderError::ReaderNotConnected.message(), "Leitor não está conectado");
    assert_eq!(FileReaderError::ReaderNotReading.message(), "Leitor não está lendo");
}

#[test]
fn imon_life_cycle() {
    assert_eq!(imon::connect_check(State::Disconnected), Ok(()));
    assert_eq!(imon::connect_check(State::Reading), Err(ImonError::ImonAlreadyConnected));
    assert_eq!(imon::disconnect(State::Disconnected), Err(ImonError::ImonAlreadyDisconnected));
    assert_eq!(imon::disconnect(State::Reading), Ok(State::Disconnected));
    assert_eq!(imon::start_reading(State::Connected), Ok(State::Reading));
    assert_eq!(imon::start_reading(State::Disconnected), Err(ImonError::ImonNotConnected));
    assert_eq!(imon::start_reading(State::Reading), Err(ImonError::ImonAlreadyReading));
    assert_eq!(imon::stop_reading(State::Reading), Ok(State::Connected));
    assert_eq!(imon::stop_reading(State::Connected), Err(ImonError::ImonNotReading));
    let started = imon::start_reading(State::Connected).unwrap();
    assert_eq!(imon::stop_reading(started), Ok(State::Connected));
}

#[test]
fn imon_error_messages() {
    assert_eq!(ImonError::CommandNack.message(), "Comando não entendido pelo IMON");
    assert_eq!(ImonError::ImonAlreadyConnected.message(), "Imon já conectado");
    assert_eq!(ImonError::ImonAlreadyDisconnected.message(), "Imon já desconectado");
    assert_eq!(ImonError::ImonAlreadyReading.message(), "Imon já está lendo");
    assert_eq!(ImonError::ImonNotConnected.message(), "Imon não está conectado");
    assert_eq!(ImonError::ImonNotFound.message(), "Imon não encontrado nos dispositivos serial conectados");
    assert_eq!(ImonError::ImonNotReading.message(), "Imon não está lendo");
    assert_eq!(ImonError::NotImon.message(), "Dispositivo serial não é o imon (ou não respondeu)");
    assert_eq!(ImonError::ParseError.message(), "Encontrou o Imon, mas não conseguiu pegar os dados");
    assert_eq!(ImonError::PathDoesNotExist.message(), "Caminho não existe");
    assert_eq!(ImonError::PathIsNotDir.message(), "Caminho não é pasta ");
    assert_eq!(ImonError::PathWithoutPermission.message(), "Permissão negada ao caminho");
    assert_eq!(
        ImonError::SourceTurnedOn.message(),
        "A fonte parece estar ligada. Ela deve estar desconectada para conectar o IMON"
    );
    assert_eq!(ImonError::UnexpectedResponse.message(), "Comando não foi respondido da forma esperada");
}

#[test]
fn imon_reading_attempts() {
    assert_eq!(READ_ATTEMPTS, 10);
    assert_eq!(reading_attempt(0, true), ReadAttempt::Stored);
    assert_eq!(reading_attempt(9, true), ReadAttempt::Stored);
    for attempt in 0..READ_ATTEMPTS - 1 {
        assert_eq!(reading_attempt(attempt, false), ReadAttempt::Retry);
    }
    assert_eq!(reading_attempt(READ_ATTEMPTS - 1, false), ReadAttempt::GiveUp);
}

#[test]
fn imon_update_config_sends_the_new_one_while_reading() {
    let mut config = 1u32;
    assert_eq!(update_config(&mut config, 2, true), Some(2));
    assert_eq!(config, 2);
    assert_eq!(update_config(&mut config, 3, false), None);
    assert_eq!(config, 3);
}

#[test]
fn imon_identification() {
    assert!(is_imon_response(b"JETI_VersaPIC_RU60"));
    assert!(is_imon_response(b"Ibsen JETI_VersaPIC_RU60 v2\r\n"));
    assert!(!is_imon_response(b"JETI_VersaPIC_RU6"));
    assert!(!is_imon_response(b"jeti_versapic_ru60"));
    assert!(!is_imon_response(b""));
}

#[test]
fn imon_pixel_count() {
    assert_eq!(parse_pixel_count(b"Model: I-MON\rPixelPerLine: 512\rSpeed: 3\r"), Some(512));
    assert_eq!(parse_pixel_count(b"pixel per line : 256\r\n"), Some(256));
    assert_eq!(parse_pixel_count(b"PIXELPERLINE:128\rPixelPerLine: 256\r"), Some(256));
    assert_eq!(parse_pixel_count(b"PixelPerLine: 256\rPixelPerLine: many\r"), Some(256));
    assert_eq!(parse_pixel_count(b"PixelPerLine: 4294967296\r"), None);
    assert_eq!(parse_pixel_count(b"Width: 512\r"), None);
    assert_eq!(parse_pixel_count(b"PixelPerLine: 512\r\0\0\0"), Some(512));
    assert_eq!(parse_pixel_count(b"PixelPerLine: 512\0\0"), None);
}

#[test]
fn imon_pixel_readings_are_little_endian() {
    assert_eq!(decode_u16_le(0x34, 0x12), 0x1234);
    assert_eq!(decode_u16_le(0xff, 0xff), 65535);
    assert_eq!(decode_pixel_readings(&[1, 0, 0, 1, 0xff, 0xff], 3), vec![1, 256, 65535]);
    assert_eq!(decode_pixel_readings(&[], 0), Vec::<u32>::new());
}

#[test]
fn imon_ack_wait() {
    assert_eq!(ack_step(0, ACK), WaitStep::Done);
    assert_eq!(ack_step(5, NACK), WaitStep::Failed(ImonError::CommandNack));
    assert_eq!(ack_step(5, b'x'), WaitStep::ReadMore);
    assert_eq!(ack_step(ACK_SEARCH_LIMIT - 1, b'x'), WaitStep::Failed(ImonError::UnexpectedResponse));
    assert_eq!(ack_step(ACK_SEARCH_LIMIT - 1, ACK), WaitStep::Done);
}

#[test]
fn imon_ack_wait_ends_within_the_limit() {
    let mut read = 0;
    let step = loop {
        match ack_step(read, 0) {
            WaitStep::ReadMore => read += 1,
            other => break other,
        }
    };
    assert_eq!(read, ACK_SEARCH_LIMIT - 1);
    assert_eq!(step, WaitStep::Failed(ImonError::UnexpectedResponse));
}

#[test]
fn imon_bell_wait() {
    assert_eq!(bell_step(0, BELL), WaitStep::Done);
    assert_eq!(bell_step(0, ACK), WaitStep::ReadMore);
    assert_eq!(bell_step(BELL_SEARCH_LIMIT - 1, 0), WaitStep::Failed(ImonError::UnexpectedResponse));
    let mut read = 0;
    while bell_step(read, 0) == WaitStep::ReadMore {
        read += 1;
    }
    assert_eq!(read, BELL_SEARCH_LIMIT - 1);
}

#[test]
fn imon_dark_pixels() {
    assert_eq!(check_dark_pixels(&[100, 200, 600], 3), Ok(()));
    assert_eq!(check_dark_pixels(&[100, 200, 601], 3), Err(ImonError::SourceTurnedOn));
    assert_eq!(check_dark_pixels(&[0, 200, 501], 3), Err(ImonError::SourceTurnedOn));
    assert_eq!(check_dark_pixels(&[0, 200, 500], 3), Ok(()));
    assert_eq!(check_dark_pixels(&[100, 200], 3), Err(ImonError::ParseError));
    assert_eq!(check_dark_pixels(&[0, 0, 0], 3), Err(ImonError::ParseError));
    assert_eq!(check_dark_pixels(&[], 0), Err(ImonError::ParseError));
    assert_eq!(check_dark_pixels(&[0, 0, 7], 3), Ok(()));
}

#[test]
fn example_life_cycle() {
    assert_eq!(example::connect(ExampleState::Disconnected), Ok(ExampleState::Connected(CONNECTED_ON_CONNECT)));
    assert_eq!(example::connect(ExampleState::Reading), Err(ExampleErrors::ConnectFail));
    assert_eq!(example::disconnect(ExampleState::Connected(3)), Ok(ExampleState::Disconnected));
    assert_eq!(example::disconnect(ExampleState::Disconnected), Err(ExampleErrors::ConnectFail));
    assert_eq!(example::start_reading(ExampleState::Connected(3), true), ExampleState::Connected(3));
    assert_eq!(example::start_reading(ExampleState::Connected(3), false), ExampleState::Reading);
    assert_eq!(example::stop_reading(ExampleState::Reading), ExampleState::Connected(CONNECTED_ON_STOP));
    assert_eq!(get_simplified_state(ExampleState::Connected(9)), State::Connected);
    assert_eq!(get_simplified_state(ExampleState::Reading), State::Reading);
    assert_eq!(get_simplified_state(ExampleState::Disconnected), State::Disconnected);
    assert_eq!(ExampleErrors::ConnectFail.message(), "Não conectou");
}

#[test]
fn example_connect_then_disconnect_round_trip() {
    let connected = example::connect(ExampleState::Disconnected).unwrap();
    assert_eq!(example::disconnect(connected), Ok(ExampleState::Disconnected));
}

#[test]
fn example_auto_save_failure_disconnects() {
    assert_eq!(after_auto_save(ExampleState::Reading, true, false), ExampleState::Disconnected);
    assert_eq!(after_auto_save(ExampleState::Reading, true, true), ExampleState::Reading);
    assert_eq!(after_auto_save(ExampleState::Reading, false, false), ExampleState::Reading);
}

#[test]
fn auto_save_names() {
    assert_eq!(auto_save_file_name(0), "spectrum000.txt");
    assert_eq!(auto_save_file_name(7), "spectrum007.txt");
    assert_eq!(auto_save_file_name(123), "spectrum123.txt");
    assert_eq!(auto_save_file_name(99999), "spectrum99999.txt");
}

#[test]
fn file_reader_open_attempts() {
    assert_eq!(OPEN_ATTEMPTS, 10);
    assert_eq!(open_step(0, OpenOutcome::Opened), OpenStep::Read);
    assert_eq!(open_step(0, OpenOutcome::Failed), OpenStep::GiveUp);
    assert_eq!(open_step(0, OpenOutcome::InUse), OpenStep::Retry);
    assert_eq!(open_step(8, OpenOutcome::InUse), OpenStep::Retry);
    assert_eq!(open_step(9, OpenOutcome::InUse), OpenStep::GiveUp);
    assert_eq!(open_step(9, OpenOutcome::Opened), OpenStep::Read);
}

#[test]
fn imon_disconnect_then_connect() {
    for state in [State::Connected, State::Reading] {
        let disconnected = imon::disconnect(state).unwrap();
        assert_eq!(imon::connect_check(disconnected), Ok(()));
    }
}
