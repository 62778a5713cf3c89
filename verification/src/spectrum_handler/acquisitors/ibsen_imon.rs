use vstd::prelude::*;

use crate::spectrum_handler::State;
use crate::text::{parse_unsigned, parsed_unsigned};

verus! {

// Region: errors ----------------------------------------------------------------

/// Failures of the Ibsen IMON acquisitor.
#[derive(Debug, Clone, Copy, PartialEq, Eq, Structural)]
pub enum ImonError {
    CommandNack,
    ImonAlreadyConnected,
    ImonAlreadyDisconnected,
    ImonAlreadyReading,
    ImonNotConnected,
    ImonNotFound,
    ImonNotReading,
    NotImon,
    ParseError,
    PathDoesNotExist,
    PathIsNotDir,
    PathWithoutPermission,
    SourceTurnedOn,
    UnexpectedResponse,
}

pub open spec fn imon_error_message(e: ImonError) -> Seq<char> {
    match e {
        ImonError::CommandNack => "Comando não entendido pelo IMON"@,
        ImonError::ImonAlreadyConnected => "Imon já conectado"@,
        ImonError::ImonAlreadyDisconnected => "Imon já desconectado"@,
        ImonError::ImonAlreadyReading => "Imon já está lendo"@,
        ImonError::ImonNotConnected => "Imon não está conectado"@,
        ImonError::ImonNotFound => "Imon não encontrado nos dispositivos serial conectados"@,
        ImonError::ImonNotReading => "Imon não está lendo"@,
        ImonError::NotImon => "Dispositivo serial não é o imon (ou não respondeu)"@,
        ImonError::ParseError => "Encontrou o Imon, mas não conseguiu pegar os dados"@,
        ImonError::PathDoesNotExist => "Caminho não existe"@,
        ImonError::PathIsNotDir => "Caminho não é pasta "@,
        ImonError::PathWithoutPermission => "Permissão negada ao caminho"@,
        ImonError::SourceTurnedOn => "A fonte parece estar ligada. Ela deve estar desconectada para conectar o IMON"@,
        ImonError::UnexpectedResponse => "Comando não foi respondido da forma esperada"@,
    }
}

impl ImonError {
    /// The message shown for the error.
    pub fn message(&self) -> (m: &'static str)
        ensures
            m@ == imon_error_message(*self),
    {
        match self {
            ImonError::CommandNack => "Comando não entendido pelo IMON",
            ImonError::ImonAlreadyConnected => "Imon já conectado",
            ImonError::ImonAlreadyDisconnected => "Imon já desconectado",
            ImonError::ImonAlreadyReading => "Imon já está lendo",
            ImonError::ImonNotConnected => "Imon não está conectado",
            ImonError::ImonNotFound => "Imon não encontrado nos dispositivos serial conectados",
            ImonError::ImonNotReading => "Imon não está lendo",
            ImonError::NotImon => "Dispositivo serial não é o imon (ou não respondeu)",
            ImonError::ParseError => "Encontrou o Imon, mas não conseguiu pegar os dados",
            ImonError::PathDoesNotExist => "Caminho não existe",
            ImonError::PathIsNotDir => "Caminho não é pasta ",
            ImonError::PathWithoutPermission => "Permissão negada ao caminho",
            ImonError::SourceTurnedOn => "A fonte parece estar ligada. Ela deve estar desconectada para conectar o IMON",
            ImonError::UnexpectedResponse => "Comando não foi respondido da forma esperada",
        }
    }
}

// Region: state transitions ------------------------------------------------------

/// The first step of `connect`: only a disconnected IMON may connect.
pub open spec fn connect_check_result(state: State) -> Result<(), ImonError> {
    if state == State::Disconnected {
        Ok(())
    } else {
        Err(ImonError::ImonAlreadyConnected)
    }
}

/// `disconnect`: any connected IMON goes back to disconnected; a disconnected one reports the
/// error `ImonAlreadyDisconnected`.
pub open spec fn disconnect_outcome(state: State) -> Result<State, ImonError> {
    if state == State::Disconnected {
        Err(ImonError::ImonAlreadyDisconnected)
    } else {
        Ok(State::Disconnected)
    }
}

/// `start_reading`: only a connected IMON starts to read.
pub open spec fn start_outcome(state: State) -> Result<State, ImonError> {
    match state {
        State::Disconnected => Err(ImonError::ImonNotConnected),
        State::Reading => Err(ImonError::ImonAlreadyReading),
        State::Connected => Ok(State::Reading),
    }
}

/// `stop_reading`: a reading IMON goes back to connected.
pub open spec fn stop_outcome(state: State) -> Result<State, ImonError> {
    if state == State::Reading {
        Ok(State::Connected)
    } else {
        Err(ImonError::ImonNotReading)
    }
}

pub fn connect_check(state: State) -> (r: Result<(), ImonError>)
    ensures
        r == connect_check_result(state),
{
    match state {
        State::Disconnected => Ok(()),
        _ => Err(ImonError::ImonAlreadyConnected),
    }
}

pub fn disconnect(state: State) -> (r: Result<State, ImonError>)
    ensures
        r == disconnect_outcome(state),
{
    match state {
        State::Disconnected => Err(ImonError::ImonAlreadyDisconnected),
        _ => Ok(State::Disconnected),
    }
}

pub fn start_reading(state: State) -> (r: Result<State, ImonError>)
    ensures
        r == start_outcome(state),
{
    match state {
        State::Disconnected => Err(ImonError::ImonNotConnected),
        State::Reading => Err(ImonError::ImonAlreadyReading),
        State::Connected => Ok(State::Reading),
    }
}

pub fn stop_reading(state: State) -> (r: Result<State, ImonError>)
    ensures
        r == stop_outcome(state),
{
    match state {
        State::Reading => Ok(State::Connected),
        _ => Err(ImonError::ImonNotReading),
    }
}

/// Starting to read succeeds exactly on a connected IMON, and stopping then brings it back to
/// connected.
pub proof fn law_start_then_stop(state: State)
    ensures
        start_outcome(state) is Ok <==> state == State::Connected,
        start_outcome(state) is Ok ==> stop_outcome(start_outcome(state)->Ok_0)
            == Ok::<State, ImonError>(state),
{
}

/// Disconnecting succeeds exactly on a connected or reading IMON, and a disconnected one may
/// then connect again.
pub proof fn law_disconnect_then_connect(state: State)
    ensures
        disconnect_outcome(state) is Ok <==> state != State::Disconnected,
        disconnect_outcome(state) is Ok ==> connect_check_result(disconnect_outcome(state)->Ok_0)
            == Ok::<(), ImonError>(()),
{
}

/// Number of tries of each reading before the IMON is given up.
pub const READ_ATTEMPTS: u32 = 10;

/// What the reading loop does after the try number `attempt` (from 0) of a reading.
#[derive(Debug, Clone, Copy, PartialEq, Eq, Structural)]
pub enum ReadAttempt {
    /// The spectrum was read: store it and wait for the next reading.
    Stored,
    /// Try again.
    Retry,
    /// The last try failed: the IMON is disconnected and the loop ends.
    GiveUp,
}

pub open spec fn reading_attempt_result(attempt: int, succeeded: bool) -> ReadAttempt {
    if succeeded {
        ReadAttempt::Stored
    } else if attempt + 1 == READ_ATTEMPTS {
        ReadAttempt::GiveUp
    } else {
        ReadAttempt::Retry
    }
}

pub fn reading_attempt(attempt: u32, succeeded: bool) -> (r: ReadAttempt)
    requires
        attempt < READ_ATTEMPTS,
    ensures
        r == reading_attempt_result(attempt as int, succeeded),
{
    if succeeded {
        ReadAttempt::Stored
    } else if attempt == READ_ATTEMPTS - 1 {
        ReadAttempt::GiveUp
    } else {
        ReadAttempt::Retry
    }
}

/// Replaces the configuration. While reading, the new configuration is also returned, to be
/// sent to the reading loop at once.
pub fn update_config<C: Copy>(config: &mut C, new_config: C, reading: bool) -> (sent: Option<C>)
    ensures
        *final(config) == new_config,
        sent == if reading {
            Some(new_config)
        } else {
            None
        },
{
    *config = new_config;
    if reading {
        Some(new_config)
    } else {
        None
    }
}

// Region: serial protocol ----------------------------------------------------------

/// What the IMON answers to `*IDN?` contains.
pub open spec fn imon_identification() -> Seq<u8> {
    seq![74u8, 69, 84, 73, 95, 86, 101, 114, 115, 97, 80, 73, 67, 95, 82, 85, 54, 48]
}

fn imon_identification_byte(i: usize) -> (b: u8)
    requires
        i < 18,
    ensures
        b == imon_identification()[i as int],
{
    match i {
        0 => 74,
        1 => 69,
        2 => 84,
        3 => 73,
        4 => 95,
        5 => 86,
        6 => 101,
        7 => 114,
        8 => 115,
        9 => 97,
        10 => 80,
        11 => 73,
        12 => 67,
        13 => 95,
        14 => 82,
        15 => 85,
        16 => 54,
        _ => 48,
    }
}

/// Whether `needle` occurs in `haystack` at some position.
pub open spec fn contains_bytes(haystack: Seq<u8>, needle: Seq<u8>) -> bool {
    exists|i: int|
        0 <= i && i + needle.len() <= haystack.len() && #[trigger] haystack.subrange(
            i,
            i + needle.len(),
        ) == needle
}

/// Whether the answer of a serial device to `*IDN?` identifies an IMON.
pub fn is_imon_response(response: &[u8]) -> (r: bool)
    ensures
        r == contains_bytes(response@, imon_identification()),
{
    let n = response.len();
    let k: usize = 18;
    let ghost needle = imon_identification();
    if n < k {
        assert forall|i: int| 0 <= i && i + needle.len() <= response@.len() implies
            #[trigger] response@.subrange(i, i + needle.len()) != needle by {}
        return false;
    }
    let mut i: usize = 0;
    while i <= n - k
        invariant
            n == response@.len(),
            k == needle.len(),
            needle == imon_identification(),
            k <= n,
            forall|p: int| 0 <= p < i ==> #[trigger] response@.subrange(p, p + k) != needle,
        decreases n - k + 1 - i,
    {
        if identification_at(response, i) {
            return true;
        }
        i = i + 1;
    }
    false
}

fn identification_at(response: &[u8], i: usize) -> (r: bool)
    requires
        i + 18 <= response@.len(),
    ensures
        r == (response@.subrange(i as int, i + 18) == imon_identification()),
{
    let ghost needle = imon_identification();
    let len = response.len();
    for j in 0..18
        invariant
            len == response@.len(),
            i + 18 <= response@.len(),
            needle == imon_identification(),
            forall|q: int| 0 <= q < j ==> response@[i + q] == needle[q],
    {
        if response[i + j] != imon_identification_byte(j) {
            assert(response@.subrange(i as int, i + 18)[j as int] != needle[j as int]);
            return false;
        }
    }
    assert(response@.subrange(i as int, i + 18) =~= needle);
    true
}

/// ASCII lower case.
pub open spec fn ascii_lower(b: u8) -> u8 {
    if 65 <= b <= 90 {
        (b + 32) as u8
    } else {
        b
    }
}

/// The lines of `s`, separated by carriage returns: always at least one, maybe empty.
pub open spec fn cr_lines(s: Seq<u8>) -> Seq<Seq<u8>>
    decreases s.len(),
{
    if s.len() == 0 {
        seq![Seq::<u8>::empty()]
    } else {
        let prev = cr_lines(s.drop_last());
        if s.last() == 13 {
            prev.push(Seq::<u8>::empty())
        } else {
            prev.update(prev.len() - 1, prev.last().push(s.last()))
        }
    }
}

/// A line without its newlines and spaces, in lower case.
pub open spec fn cleaned_line(l: Seq<u8>) -> Seq<u8>
    decreases l.len(),
{
    if l.len() == 0 {
        Seq::empty()
    } else {
        let prev = cleaned_line(l.drop_last());
        if l.last() == 10 || l.last() == 32 {
            prev
        } else {
            prev.push(ascii_lower(l.last()))
        }
    }
}

/// The key of the line of `*para:basic?` that gives the number of pixels.
pub open spec fn pixel_count_key() -> Seq<u8> {
    seq![112u8, 105, 120, 101, 108, 112, 101, 114, 108, 105, 110, 101, 58]
}

fn pixel_count_key_byte(i: usize) -> (b: u8)
    requires
        i < 13,
    ensures
        b == pixel_count_key()[i as int],
{
    match i {
        0 => 112,
        1 => 105,
        2 => 120,
        3 => 101,
        4 => 108,
        5 => 112,
        6 => 101,
        7 => 114,
        8 => 108,
        9 => 105,
        10 => 110,
        11 => 101,
        _ => 58,
    }
}

/// The number of pixels a cleaned line gives, if it is the pixel count line and its value is
/// a valid `u32`.
pub open spec fn cleaned_line_pixel_count(c: Seq<u8>) -> Option<int> {
    let key = pixel_count_key();
    if c.len() >= key.len() && c.take(key.len() as int) == key {
        parsed_unsigned(c.skip(key.len() as int), u32::MAX as int)
    } else {
        None
    }
}

/// The number of pixels given by the last line that gives one.
pub open spec fn last_pixel_count(lines: Seq<Seq<u8>>) -> Option<int>
    decreases lines.len(),
{
    if lines.len() == 0 {
        None
    } else {
        match cleaned_line_pixel_count(cleaned_line(lines.last())) {
            Some(v) => Some(v),
            None => last_pixel_count(lines.drop_last()),
        }
    }
}

/// The number of pixels an answer to `*para:basic?` gives: the value of the last line that
/// reads `pixelperline:` followed by a number, once newlines and spaces are removed and the
/// line is put in lower case.
pub open spec fn pixel_count(response: Seq<u8>) -> Option<int> {
    last_pixel_count(cr_lines(response))
}

fn line_pixel_count(clean: &Vec<u8>) -> (r: Option<u32>)
    ensures
        match cleaned_line_pixel_count(clean@) {
            Some(v) => r == Some(v as u32),
            None => r is None,
        },
{
    let k: usize = 13;
    let n = clean.len();
    let ghost key = pixel_count_key();
    if n < k {
        return None;
    }
    for j in 0..k
        invariant
            n == clean@.len(),
            k == key.len(),
            key == pixel_count_key(),
            k <= n,
            forall|q: int| 0 <= q < j ==> clean@[q] == key[q],
    {
        if clean[j] != pixel_count_key_byte(j) {
            assert(clean@.take(k as int)[j as int] != key[j as int]);
            return None;
        }
    }
    assert(clean@.take(k as int) =~= key);
    let mut rest: Vec<u8> = Vec::new();
    for j in k..n
        invariant
            n == clean@.len(),
            k <= n,
            rest@ == clean@.subrange(k as int, j as int),
    {
        rest.push(clean[j]);
        assert(rest@ =~= clean@.subrange(k as int, j + 1));
    }
    assert(rest@ =~= clean@.skip(k as int));
    match parse_unsigned(rest.as_slice(), u32::MAX as u64) {
        Some(v) => Some(v as u32),
        None => None,
    }
}

proof fn lemma_cr_lines_len(s: Seq<u8>)
    ensures
        cr_lines(s).len() >= 1,
    decreases s.len(),
{
    if s.len() > 0 {
        lemma_cr_lines_len(s.drop_last());
    }
}

proof fn lemma_cleaned_line_push(l: Seq<u8>, b: u8)
    ensures
        cleaned_line(l.push(b)) == if b == 10 || b == 32 {
            cleaned_line(l)
        } else {
            cleaned_line(l).push(ascii_lower(b))
        },
{
    assert(l.push(b).drop_last() =~= l);
}

proof fn lemma_same_cleaned_lines(a: Seq<Seq<u8>>, b: Seq<Seq<u8>>)
    requires
        a.len() == b.len(),
        forall|i: int| 0 <= i < a.len() ==> cleaned_line(#[trigger] a[i]) == cleaned_line(b[i]),
    ensures
        last_pixel_count(a) == last_pixel_count(b),
    decreases a.len(),
{
    if a.len() > 0 {
        let (da, db) = (a.drop_last(), b.drop_last());
        assert forall|i: int| 0 <= i < da.len() implies cleaned_line(#[trigger] da[i])
            == cleaned_line(db[i]) by {
            assert(da[i] == a[i] && db[i] == b[i]);
        }
        lemma_same_cleaned_lines(da, db);
        assert(cleaned_line(a.last()) == cleaned_line(b.last()));
    }
}

proof fn lemma_lines_without_line_feeds(s: Seq<u8>)
    ensures
        ({
            let t = s.filter(|b: u8| b != 10);
            &&& cr_lines(t).len() == cr_lines(s).len()
            &&& forall|i: int|
                0 <= i < cr_lines(s).len() ==> cleaned_line(#[trigger] cr_lines(t)[i])
                    == cleaned_line(cr_lines(s)[i])
        }),
    decreases s.len(),
{
    reveal(Seq::filter);
    let p = |b: u8| b != 10;
    let t = s.filter(p);
    if s.len() > 0 {
        let d = s.drop_last();
        let b = s.last();
        let td = d.filter(p);
        lemma_lines_without_line_feeds(d);
        lemma_cr_lines_len(d);
        lemma_cr_lines_len(td);
        let cs = cr_lines(d);
        let ct = cr_lines(td);
        if b == 10 {
            assert(t == td);
            lemma_cleaned_line_push(cs.last(), b);
            assert forall|i: int| 0 <= i < cr_lines(s).len() implies cleaned_line(
                #[trigger] cr_lines(t)[i],
            ) == cleaned_line(cr_lines(s)[i]) by {
                if i < cs.len() - 1 {
                    assert(cr_lines(s)[i] == cs[i]);
                }
            }
        } else {
            assert(t == td.push(b));
            assert(t.drop_last() =~= td);
            if b == 13 {
                assert forall|i: int| 0 <= i < cr_lines(s).len() implies cleaned_line(
                    #[trigger] cr_lines(t)[i],
                ) == cleaned_line(cr_lines(s)[i]) by {
                    if i < cs.len() {
                        assert(cr_lines(s)[i] == cs[i]);
                        assert(cr_lines(t)[i] == ct[i]);
                    }
                }
            } else {
                lemma_cleaned_line_push(cs.last(), b);
                lemma_cleaned_line_push(ct.last(), b);
                assert forall|i: int| 0 <= i < cr_lines(s).len() implies cleaned_line(
                    #[trigger] cr_lines(t)[i],
                ) == cleaned_line(cr_lines(s)[i]) by {
                    if i < cs.len() - 1 {
                        assert(cr_lines(s)[i] == cs[i]);
                        assert(cr_lines(t)[i] == ct[i]);
                    } else {
                        assert(cleaned_line(ct[i]) == cleaned_line(cs[i]));
                    }
                }
            }
        }
    }
}

/// Line feeds are ignored like spaces: removing every line feed from the answer does not change
/// the number of pixels read from it, so a line feed after a carriage return never hides the
/// pixel count line.
pub proof fn law_line_feeds_ignored(response: Seq<u8>)
    ensures
        pixel_count(response) == pixel_count(response.filter(|b: u8| b != 10)),
{
    let t = response.filter(|b: u8| b != 10);
    lemma_lines_without_line_feeds(response);
    lemma_same_cleaned_lines(cr_lines(t), cr_lines(response));
}

/// The number of pixels given by the answer of the IMON to `*para:basic?` (see `pixel_count`).
pub fn parse_pixel_count(response: &[u8]) -> (r: Option<u32>)
    ensures
        match pixel_count(response@) {
            Some(v) => r == Some(v as u32),
            None => r is None,
        },
{
    let n = response.len();
    let mut n_pixels: Option<u32> = None;
    let mut current: Vec<u8> = Vec::new();
    for i in 0..n
        invariant
            n == response@.len(),
            current@ == cleaned_line(cr_lines(response@.take(i as int)).last()),
            match last_pixel_count(cr_lines(response@.take(i as int)).drop_last()) {
                Some(v) => n_pixels == Some(v as u32),
                None => n_pixels is None,
            },
    {
        let ghost pre = response@.take(i as int);
        let ghost lines = cr_lines(pre);
        proof {
            lemma_cr_lines_len(pre);
            assert(response@.take(i + 1).drop_last() =~= pre);
        }
        let b = response[i];
        if b == 13u8 {
            match line_pixel_count(&current) {
                Some(v) => {
                    n_pixels = Some(v);
                },
                None => {},
            }
            current = Vec::new();
            proof {
                let next = lines.push(Seq::<u8>::empty());
                assert(next.drop_last() =~= lines);
            }
        } else {
            proof {
                let next = lines.update(lines.len() - 1, lines.last().push(b));
                assert(next.drop_last() =~= lines.drop_last());
                assert(lines.last().push(b).drop_last() =~= lines.last());
            }
            if b != 10u8 && b != 32u8 {
                let lower = if 65u8 <= b && b <= 90u8 {
                    b + 32
                } else {
                    b
                };
                current.push(lower);
            }
        }
    }
    proof {
        lemma_cr_lines_len(response@);
        assert(response@.take(n as int) =~= response@);
    }
    match line_pixel_count(&current) {
        Some(v) => Some(v),
        None => n_pixels,
    }
}

/// The value of two bytes sent least significant first.
pub open spec fn u16_le(low: u8, high: u8) -> u32 {
    (low as int + (high as int) * 256) as u32
}

pub fn decode_u16_le(low: u8, high: u8) -> (v: u32)
    ensures
        v == u16_le(low, high),
        v < 65536,
{
    (low as u32) + ((high as u32) * 256)
}

/// The raw readings of `n_pixels` pixels, each sent as two bytes least significant first.
pub fn decode_pixel_readings(bytes: &[u8], n_pixels: u32) -> (readings: Vec<u32>)
    requires
        bytes@.len() == 2 * n_pixels,
    ensures
        readings@.len() == n_pixels,
        forall|k: int|
            0 <= k < n_pixels ==> #[trigger] readings@[k] == u16_le(bytes@[2 * k], bytes@[2 * k + 1]),
{
    let mut readings: Vec<u32> = Vec::new();
    let len = bytes.len();
    let mut k: u32 = 0;
    while k < n_pixels
        invariant
            bytes@.len() == 2 * n_pixels,
            len == bytes@.len(),
            k <= n_pixels,
            readings@.len() == k,
            forall|q: int|
                0 <= q < k ==> #[trigger] readings@[q] == u16_le(bytes@[2 * q], bytes@[2 * q + 1]),
        decreases n_pixels - k,
    {
        assert(2 * k + 1 < bytes@.len());
        let at = 2 * (k as usize);
        readings.push(decode_u16_le(bytes[at], bytes[at + 1]));
        k = k + 1;
    }
    readings
}

/// Byte the IMON sends to accept a command.
pub const ACK: u8 = 0x06;

/// Byte the IMON sends to refuse a command.
pub const NACK: u8 = 0x15;

/// Byte the IMON sends when a measurement is complete.
pub const BELL: u8 = 0x07;

/// Bytes read at most while waiting for the acceptance of a command.
pub const ACK_SEARCH_LIMIT: u32 = 100;

/// Bytes read at most while waiting for the end of a measurement.
pub const BELL_SEARCH_LIMIT: u32 = 1000;

/// What to do after a byte was read while waiting for something.
#[derive(Debug, Clone, Copy, PartialEq, Eq, Structural)]
pub enum WaitStep {
    /// The awaited answer came.
    Done,
    /// Read the next byte.
    ReadMore,
    /// The wait failed.
    Failed(ImonError),
}

/// The wait for the acceptance of a command, after the byte number `read` (from 0) was read.
pub open spec fn ack_step_result(read: int, byte: u8) -> WaitStep {
    if byte == NACK {
        WaitStep::Failed(ImonError::CommandNack)
    } else if byte == ACK {
        WaitStep::Done
    } else if read + 1 == ACK_SEARCH_LIMIT {
        WaitStep::Failed(ImonError::UnexpectedResponse)
    } else {
        WaitStep::ReadMore
    }
}

pub fn ack_step(read: u32, byte: u8) -> (step: WaitStep)
    requires
        read < ACK_SEARCH_LIMIT,
    ensures
        step == ack_step_result(read as int, byte),
{
    if byte == NACK {
        WaitStep::Failed(ImonError::CommandNack)
    } else if byte == ACK {
        WaitStep::Done
    } else if read == ACK_SEARCH_LIMIT - 1 {
        WaitStep::Failed(ImonError::UnexpectedResponse)
    } else {
        WaitStep::ReadMore
    }
}

/// The wait for the end of a measurement, after the byte number `read` (from 0) was read.
pub open spec fn bell_step_result(read: int, byte: u8) -> WaitStep {
    if byte == BELL {
        WaitStep::Done
    } else if read + 1 == BELL_SEARCH_LIMIT {
        WaitStep::Failed(ImonError::UnexpectedResponse)
    } else {
        WaitStep::ReadMore
    }
}

pub fn bell_step(read: u32, byte: u8) -> (step: WaitStep)
    requires
        read < BELL_SEARCH_LIMIT,
    ensures
        step == bell_step_result(read as int, byte),
{
    if byte == BELL {
        WaitStep::Done
    } else if read == BELL_SEARCH_LIMIT - 1 {
        WaitStep::Failed(ImonError::UnexpectedResponse)
    } else {
        WaitStep::ReadMore
    }
}

/// Largest spread of the dark readings for the source to count as off.
pub const DARK_SPREAD_LIMIT: u32 = 500;

/// Whether some lit dark reading exceeds some dark reading by more than the limit: the
/// largest non-zero reading minus the smallest reading is over `DARK_SPREAD_LIMIT`.
pub open spec fn dark_spread_too_large(dark: Seq<u32>) -> bool {
    exists|i: int, j: int|
        0 <= i < dark.len() && 0 <= j < dark.len() && dark[i] != 0 && #[trigger] dark[i] - #[trigger] dark[j]
            > DARK_SPREAD_LIMIT
}

/// Whether some dark reading is not zero.
pub open spec fn has_lit_reading(dark: Seq<u32>) -> bool {
    exists|i: int| 0 <= i < dark.len() && #[trigger] dark[i] != 0
}

/// Checks the readings taken with the light source off when the IMON connects: there must be
/// one per pixel and at least one that is not zero, and their spread must stay within the
/// limit.
pub fn check_dark_pixels(dark_pixels: &[u32], n_pixels: u32) -> (r: Result<(), ImonError>)
    ensures
        r == if dark_pixels@.len() != n_pixels || !has_lit_reading(dark_pixels@) {
            Err(ImonError::ParseError)
        } else if dark_spread_too_large(dark_pixels@) {
            Err(ImonError::SourceTurnedOn)
        } else {
            Ok(())
        },
{
    if dark_pixels.len() != n_pixels as usize {
        return Err(ImonError::ParseError);
    }
    let n = dark_pixels.len();
    let ghost d = dark_pixels@;
    let mut max_lit: u32 = 0;
    let mut min_all: u32 = u32::MAX;
    let mut any_lit = false;
    let mut arg_max: usize = 0;
    let mut arg_min: usize = 0;
    for i in 0..n
        invariant
            n == d.len(),
            d == dark_pixels@,
            any_lit ==> arg_max < i && d[arg_max as int] == max_lit && max_lit != 0,
            !any_lit ==> forall|k: int| 0 <= k < i ==> d[k] == 0,
            forall|k: int| 0 <= k < i && d[k] != 0 ==> d[k] <= max_lit,
            i > 0 ==> arg_min < i && d[arg_min as int] == min_all,
            forall|k: int| 0 <= k < i ==> min_all <= d[k],
    {
        let v = dark_pixels[i];
        if v != 0 && (!any_lit || v > max_lit) {
            max_lit = v;
            arg_max = i;
            any_lit = true;
        }
        if i == 0 || v < min_all {
            min_all = v;
            arg_min = i;
        }
    }
    if !any_lit {
        assert(!has_lit_reading(d));
        return Err(ImonError::ParseError);
    }
    if max_lit - min_all > DARK_SPREAD_LIMIT {
        assert(d[arg_max as int] - d[arg_min as int] > DARK_SPREAD_LIMIT);
        return Err(ImonError::SourceTurnedOn);
    }
    assert(!dark_spread_too_large(d));
    Ok(())
}

// Region: laws of the waits ----------------------------------------------------------------

/// Fed one byte after the other, the wait for the acceptance of a command ends at the first
/// acceptance or refusal among the first `ACK_SEARCH_LIMIT` bytes, and fails at the last of
/// them otherwise: it never asks for more than `ACK_SEARCH_LIMIT` bytes.
pub proof fn law_ack_wait_ends(bytes: Seq<u8>)
    requires
        bytes.len() == ACK_SEARCH_LIMIT,
    ensures
        exists|i: int|
            0 <= i < bytes.len() && !(#[trigger] ack_step_result(i, bytes[i]) is ReadMore) && forall|
                j: int,
            |
                0 <= j < i ==> ack_step_result(j, bytes[j]) is ReadMore,
        forall|i: int|
            0 <= i < bytes.len() && ack_step_result(i, bytes[i]) == WaitStep::Done ==> bytes[i]
                == ACK,
{
    lemma_first_stop(bytes, |i: int, b: u8| !(ack_step_result(i, b) is ReadMore), 0);
}

/// Fed one byte after the other, the wait for the end of a measurement ends at the first bell
/// among the first `BELL_SEARCH_LIMIT` bytes, and fails at the last of them otherwise.
pub proof fn law_bell_wait_ends(bytes: Seq<u8>)
    requires
        bytes.len() == BELL_SEARCH_LIMIT,
    ensures
        exists|i: int|
            0 <= i < bytes.len() && !(#[trigger] bell_step_result(i, bytes[i]) is ReadMore)
                && forall|j: int| 0 <= j < i ==> bell_step_result(j, bytes[j]) is ReadMore,
        forall|i: int|
            0 <= i < bytes.len() && bell_step_result(i, bytes[i]) == WaitStep::Done ==> bytes[i]
                == BELL,
{
    lemma_first_stop(bytes, |i: int, b: u8| !(bell_step_result(i, b) is ReadMore), 0);
}

/// A reading is tried at most `READ_ATTEMPTS` times: the last failed try gives up, every
/// earlier failed try tries again, and a try that succeeds stores the spectrum.
pub proof fn law_reading_attempts(attempt: int, succeeded: bool)
    requires
        0 <= attempt < READ_ATTEMPTS,
    ensures
        succeeded <==> reading_attempt_result(attempt, succeeded) == ReadAttempt::Stored,
        !succeeded ==> (reading_attempt_result(attempt, succeeded) == ReadAttempt::GiveUp <==> attempt
            == READ_ATTEMPTS - 1),
{
}

/// In a sequence whose last element stops, some element stops first.
proof fn lemma_first_stop(bytes: Seq<u8>, stops: spec_fn(int, u8) -> bool, from: int)
    requires
        0 <= from < bytes.len(),
        stops(bytes.len() - 1, bytes[bytes.len() - 1]),
        forall|j: int| 0 <= j < from ==> !stops(j, bytes[j]),
    ensures
        exists|i: int|
            0 <= i < bytes.len() && stops(i, bytes[i]) && forall|j: int|
                0 <= j < i ==> !stops(j, bytes[j]),
    decreases bytes.len() - from,
{
    if !stops(from, bytes[from]) {
        lemma_first_stop(bytes, stops, from + 1);
    }
}

} // verus!
