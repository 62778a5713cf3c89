use rosav::lower_bar::{lower_bar_actions, saving_label, status_label, Action};
use rosav::spectrum_handler::acquisitors::file_reader as reader;
use rosav::spectrum_handler::acquisitors::ibsen_imon as imon;
use rosav::spectrum_handler::State;

#[test]
fn lower_bar_buttons_per_state() {
    assert_eq!(lower_bar_actions(State::Disconnected), vec![Action::Connect]);
    assert_eq!(lower_bar_actions(State::Connected), vec![Action::StartReading, Action::Disconnect]);
    assert_eq!(lower_bar_actions(State::Reading), vec![Action::StopReading, Action::Disconnect]);
}

#[test]
fn status_labels() {
    assert_eq!(status_label(State::Connected), "Conectado");
    assert_eq!(status_label(State::Disconnected), "Desconectado");
    assert_eq!(status_label(State::Reading), "Lendo Const.");
    assert_eq!(saving_label(true), "Salvando");
    assert_eq!(saving_label(false), "Não Salvando");
}

#[test]
fn offered_actions_are_the_ones_that_succeed() {
    for state in [State::Disconnected, State::Connected, State::Reading] {
        let offered = lower_bar_actions(state);
        assert_eq!(offered.contains(&Action::Connect), reader::connect_check(state).is_ok());
        assert_eq!(offered.contains(&Action::StartReading), reader::start_reading_check(state).is_ok());
        assert_eq!(offered.contains(&Action::StopReading), reader::stop_reading(state).is_ok());
        assert_eq!(offered.contains(&Action::Disconnect), reader::disconnect(state).is_ok());
        assert_eq!(offered.contains(&Action::Connect), imon::connect_check(state).is_ok());
        assert_eq!(offered.contains(&Action::StartReading), imon::start_reading(state).is_ok());
        assert_eq!(offered.contains(&Action::StopReading), imon::stop_reading(state).is_ok());
        assert_eq!(offered.contains(&Action::Disconnect), imon::disconnect(state).is_ok());
    }
}
