use vstd::prelude::*;

use crate::spectrum_handler::State;
use crate::spectrum_handler::acquisitors::file_reader;
use crate::spectrum_handler::acquisitors::ibsen_imon;

verus! {

/// What a button of the lower bar asks of the acquisitor.
#[derive(Debug, Clone, Copy, PartialEq, Eq, Structural)]
pub enum Action {
    Connect,
    StartReading,
    StopReading,
    Disconnect,
}

/// The buttons the lower bar shows in each state, from left to right.
pub open spec fn offered_actions(state: State) -> Seq<Action> {
    match state {
        State::Disconnected => seq![Action::Connect],
        State::Connected => seq![Action::StartReading, Action::Disconnect],
        State::Reading => seq![Action::StopReading, Action::Disconnect],
    }
}

pub fn lower_bar_actions(state: State) -> (actions: Vec<Action>)
    ensures
        actions@ == offered_actions(state),
{
    let mut actions = Vec::new();
    match state {
        State::Disconnected => {
            actions.push(Action::Connect);
        },
        State::Connected => {
            actions.push(Action::StartReading);
            actions.push(Action::Disconnect);
        },
        State::Reading => {
            actions.push(Action::StopReading);
            actions.push(Action::Disconnect);
        },
    }
    assert(actions@ =~= offered_actions(state));
    actions
}

/// The text of the status for each state.
pub open spec fn state_label(state: State) -> Seq<char> {
    match state {
        State::Connected => "Conectado"@,
        State::Disconnected => "Desconectado"@,
        State::Reading => "Lendo Const."@,
    }
}

pub fn status_label(state: State) -> (label: &'static str)
    ensures
        label@ == state_label(state),
{
    match state {
        State::Connected => "Conectado",
        State::Disconnected => "Desconectado",
        State::Reading => "Lendo Const.",
    }
}

/// The text of the status of the automatic saving.
pub fn saving_label(saving: bool) -> (label: &'static str)
    ensures
        label@ == if saving { "Salvando"@ } else { "Não Salvando"@ },
{
    if saving {
        "Salvando"
    } else {
        "Não Salvando"
    }
}

/// The lower bar offers an action of the file reader exactly when the reader's state lets it
/// succeed (the connection then still depends on the folder, and the reading on the watcher).
pub proof fn law_offered_file_reader_actions(state: State)
    ensures
        offered_actions(state).contains(Action::Connect) <==> file_reader::connect_check_result(
            state,
        ) is Ok,
        offered_actions(state).contains(Action::StartReading)
            <==> file_reader::start_check_result(state) is Ok,
        offered_actions(state).contains(Action::StopReading) <==> file_reader::stop_outcome(
            state,
        ) is Ok,
        offered_actions(state).contains(Action::Disconnect) <==> file_reader::disconnect_outcome(
            state,
        ) is Ok,
{
    lemma_offered(state);
}

/// The lower bar offers an action of the IMON exactly when the IMON's state lets it succeed
/// (the connection then still depends on finding the device).
pub proof fn law_offered_imon_actions(state: State)
    ensures
        offered_actions(state).contains(Action::Connect) <==> ibsen_imon::connect_check_result(
            state,
        ) is Ok,
        offered_actions(state).contains(Action::StartReading) <==> ibsen_imon::start_outcome(
            state,
        ) is Ok,
        offered_actions(state).contains(Action::StopReading) <==> ibsen_imon::stop_outcome(
            state,
        ) is Ok,
        offered_actions(state).contains(Action::Disconnect) <==> ibsen_imon::disconnect_outcome(
            state,
        ) is Ok,
{
    lemma_offered(state);
}

proof fn lemma_offered(state: State)
    ensures
        offered_actions(state).contains(Action::Connect) <==> state == State::Disconnected,
        offered_actions(state).contains(Action::StartReading) <==> state == State::Connected,
        offered_actions(state).contains(Action::StopReading) <==> state == State::Reading,
        offered_actions(state).contains(Action::Disconnect) <==> state != State::Disconnected,
{
    let s = offered_actions(state);
    match state {
        State::Disconnected => {
            assert(s[0] == Action::Connect);
        },
        State::Connected => {
            assert(s[0] == Action::StartReading);
            assert(s[1] == Action::Disconnect);
        },
        State::Reading => {
            assert(s[0] == Action::StopReading);
            assert(s[1] == Action::Disconnect);
        },
    }
}

} // verus!
