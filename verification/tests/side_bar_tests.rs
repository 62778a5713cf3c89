use rosav::side_bar::{
    acquisitor_from_option, acquisitor_to_option, detection_from_option, detection_to_option,
    parse_series_total_time, parse_shadow_length, DetectionKind, MAX_SERIES_TIME, MIN_SERIES_TIME,
};
use rosav::spectrum_handler::AcquisitorSimple;

#[test]
fn series_total_time_accepts_one_to_six_hundred() {
    assert_eq!(parse_series_total_time("1"), Some(1));
    assert_eq!(parse_series_total_time("600"), Some(600));
    assert_eq!(parse_series_total_time("+30"), Some(30));
    assert_eq!(MIN_SERIES_TIME, 1);
    assert_eq!(MAX_SERIES_TIME, 600);
}

#[test]
fn series_total_time_rejects_the_rest() {
    assert_eq!(parse_series_total_time("0"), None);
    assert_eq!(parse_series_total_time("601"), None);
    assert_eq!(parse_series_total_time(""), None);
    assert_eq!(parse_series_total_time("-5"), None);
    assert_eq!(parse_series_total_time("5 s"), None);
    assert_eq!(parse_series_total_time("99999999999999999999999"), None);
}

#[test]
fn shadow_length_reads_any_usize() {
    assert_eq!(parse_shadow_length("0"), Some(0));
    assert_eq!(parse_shadow_length("12"), Some(12));
    assert_eq!(parse_shadow_length("twelve"), None);
    assert_eq!(parse_shadow_length(""), None);
    assert_eq!(parse_shadow_length(&usize::MAX.to_string()), Some(usize::MAX));
}

#[test]
fn acquisitor_options() {
    assert_eq!(acquisitor_to_option(AcquisitorSimple::FileReader), "file_reader");
    assert_eq!(acquisitor_to_option(AcquisitorSimple::Imon), "imon");
    assert_eq!(acquisitor_to_option(AcquisitorSimple::Example), "example");
    assert_eq!(acquisitor_from_option("imon"), Some(AcquisitorSimple::Imon));
    assert_eq!(acquisitor_from_option("Imon"), None);
    assert_eq!(acquisitor_from_option(""), None);
}

#[test]
fn acquisitor_option_round_trip() {
    for a in [AcquisitorSimple::FileReader, AcquisitorSimple::Imon, AcquisitorSimple::Example] {
        assert_eq!(acquisitor_from_option(acquisitor_to_option(a)), Some(a));
    }
}

#[test]
fn detection_options() {
    assert_eq!(detection_to_option(DetectionKind::NoDetection), "none");
    assert_eq!(detection_to_option(DetectionKind::Simple), "simple");
    assert_eq!(detection_to_option(DetectionKind::Lorentz), "lorentz");
    assert_eq!(detection_from_option("lorentz"), Some(DetectionKind::Lorentz));
    assert_eq!(detection_from_option("gauss"), None);
}

#[test]
fn detection_option_round_trip() {
    for k in [DetectionKind::NoDetection, DetectionKind::Simple, DetectionKind::Lorentz] {
        assert_eq!(detection_from_option(detection_to_option(k)), Some(k));
    }
}
