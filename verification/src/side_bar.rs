use vstd::prelude::*;

use crate::spectrum_handler::AcquisitorSimple;
use crate::text::{parse_unsigned, parsed_unsigned};
use vstd::string::StringSliceAdditionalSpecFns;

verus! {

/// Shortest time series length, in seconds, the configuration accepts.
pub const MIN_SERIES_TIME: u64 = 1;

/// Longest time series length, in seconds, the configuration accepts.
pub const MAX_SERIES_TIME: u64 = 600;

/// The total time of the time series typed in the configuration: a `u64` between the limits.
pub open spec fn series_total_time(text: Seq<u8>) -> Option<int> {
    match parsed_unsigned(text, u64::MAX as int) {
        Some(v) => if MIN_SERIES_TIME <= v <= MAX_SERIES_TIME {
            Some(v)
        } else {
            None
        },
        None => None,
    }
}

/// Reads the total time of the time series typed in the configuration; `None` means the
/// field goes back to the previous value.
pub fn parse_series_total_time(text: &str) -> (r: Option<u64>)
    ensures
        match series_total_time(text.spec_bytes()) {
            Some(v) => r == Some(v as u64),
            None => r is None,
        },
{
    match parse_unsigned(text.as_bytes(), u64::MAX) {
        Some(total_time) => {
            if MIN_SERIES_TIME <= total_time && total_time <= MAX_SERIES_TIME {
                Some(total_time)
            } else {
                None
            }
        },
        None => None,
    }
}

/// Reads the number of shadow spectra typed in the configuration; `None` means the field goes
/// back to the previous value.
pub fn parse_shadow_length(text: &str) -> (r: Option<usize>)
    ensures
        match parsed_unsigned(text.spec_bytes(), usize::MAX as int) {
            Some(v) => r == Some(v as usize),
            None => r is None,
        },
{
    match parse_unsigned(text.as_bytes(), usize::MAX as u64) {
        Some(length) => Some(length as usize),
        None => None,
    }
}

/// The option value that selects each kind of acquisitor in the configuration.
pub open spec fn acquisitor_option(a: AcquisitorSimple) -> Seq<char> {
    match a {
        AcquisitorSimple::FileReader => "file_reader"@,
        AcquisitorSimple::Imon => "imon"@,
        AcquisitorSimple::Example => "example"@,
    }
}

/// The acquisitor an option value selects; other values select nothing.
pub open spec fn acquisitor_of_option(option: Seq<char>) -> Option<AcquisitorSimple> {
    if option == "file_reader"@ {
        Some(AcquisitorSimple::FileReader)
    } else if option == "imon"@ {
        Some(AcquisitorSimple::Imon)
    } else if option == "example"@ {
        Some(AcquisitorSimple::Example)
    } else {
        None
    }
}

pub fn acquisitor_to_option(acquisitor: AcquisitorSimple) -> (name: &'static str)
    ensures
        name@ == acquisitor_option(acquisitor),
{
    match acquisitor {
        AcquisitorSimple::FileReader => "file_reader",
        AcquisitorSimple::Imon => "imon",
        AcquisitorSimple::Example => "example",
    }
}

/// Reads an option value of the acquisitor selector.
pub fn acquisitor_from_option(option: &str) -> (acquisitor: Option<AcquisitorSimple>)
    ensures
        acquisitor == acquisitor_of_option(option@),
{
    let option = option.to_owned();
    if option == "file_reader".to_owned() {
        Some(AcquisitorSimple::FileReader)
    } else if option == "imon".to_owned() {
        Some(AcquisitorSimple::Imon)
    } else if option == "example".to_owned() {
        Some(AcquisitorSimple::Example)
    } else {
        None
    }
}

/// The kinds of valley and peak detection, without their minimum prominence.
#[derive(Debug, Clone, Copy, PartialEq, Eq, Structural)]
pub enum DetectionKind {
    NoDetection,
    Simple,
    Lorentz,
}

pub open spec fn detection_option(k: DetectionKind) -> Seq<char> {
    match k {
        DetectionKind::NoDetection => "none"@,
        DetectionKind::Simple => "simple"@,
        DetectionKind::Lorentz => "lorentz"@,
    }
}

/// The detection an option value selects; other values select nothing.
pub open spec fn detection_of_option(option: Seq<char>) -> Option<DetectionKind> {
    if option == "none"@ {
        Some(DetectionKind::NoDetection)
    } else if option == "simple"@ {
        Some(DetectionKind::Simple)
    } else if option == "lorentz"@ {
        Some(DetectionKind::Lorentz)
    } else {
        None
    }
}

pub fn detection_to_option(kind: DetectionKind) -> (name: &'static str)
    ensures
        name@ == detection_option(kind),
{
    match kind {
        DetectionKind::NoDetection => "none",
        DetectionKind::Simple => "simple",
        DetectionKind::Lorentz => "lorentz",
    }
}

/// Reads an option value of a detection selector.
pub fn detection_from_option(option: &str) -> (kind: Option<DetectionKind>)
    ensures
        kind == detection_of_option(option@),
{
    let option = option.to_owned();
    if option == "none".to_owned() {
        Some(DetectionKind::NoDetection)
    } else if option == "simple".to_owned() {
        Some(DetectionKind::Simple)
    } else if option == "lorentz".to_owned() {
        Some(DetectionKind::Lorentz)
    } else {
        None
    }
}

/// The option value written for an acquisitor selects that acquisitor again.
pub proof fn law_acquisitor_option_round_trip(acquisitor: AcquisitorSimple)
    ensures
        acquisitor_of_option(acquisitor_option(acquisitor)) == Some(acquisitor),
{
    reveal_strlit("file_reader");
    reveal_strlit("imon");
    reveal_strlit("example");
    assert("file_reader"@.len() == 11 && "imon"@.len() == 4 && "example"@.len() == 7);
}

/// The option value written for a kind of detection selects that kind again.
pub proof fn law_detection_option_round_trip(kind: DetectionKind)
    ensures
        detection_of_option(detection_option(kind)) == Some(kind),
{
    reveal_strlit("none");
    reveal_strlit("simple");
    reveal_strlit("lorentz");
    assert("none"@.len() == 4 && "simple"@.len() == 6 && "lorentz"@.len() == 7);
}

} // verus!
