use rosav::api::acquisitors::AcquisitorSimple;
use rosav::api::{get_svg_size, get_time};
use rosav::js_glue::get_pointer_position;
use rosav::{new_log, LogType};

#[test]
fn time_label_is_hours_and_minutes() {
    let label = get_time();
    let b = label.as_bytes();
    assert_eq!(b.len(), 7);
    assert_eq!(b[0], b'(');
    assert_eq!(b[3], b':');
    assert_eq!(b[6], b')');
    let hour = (b[1] - b'0') * 10 + (b[2] - b'0');
    let minute = (b[4] - b'0') * 10 + (b[5] - b'0');
    assert!(hour < 24);
    assert!(minute < 60);
}

#[test]
fn svg_size_removes_bars_and_margins() {
    assert_eq!(get_svg_size((0, 500)), (0, 0));
    assert_eq!(get_svg_size((1023, 768)), (800, 709));
    assert_eq!(get_svg_size((223, 59)), (0, 0));
}

#[test]
fn pointer_position_pairs_coordinates() {
    assert_eq!(get_pointer_position(12, -3), (12, -3));
}

#[test]
fn logs_keep_message_and_kind() {
    let log = new_log("Aquisitor conectado".to_string(), LogType::Warning);
    assert_eq!(log.msg, "Aquisitor conectado");
    assert_eq!(log.log_type, LogType::Warning);
}

#[test]
fn log_type_names() {
    assert_eq!(LogType::Info.name(), "info");
    assert_eq!(LogType::Warning.name(), "warning");
    assert_eq!(LogType::Error.name(), "error");
    assert_eq!(LogType::Info.tag(), "#Info");
    assert_eq!(LogType::Warning.tag(), "#Warning");
    assert_eq!(LogType::Error.tag(), "#Error");
}

#[test]
fn acquisitor_kinds_are_shared() {
    let a: AcquisitorSimple = rosav::spectrum_handler::AcquisitorSimple::Imon;
    assert_eq!(a, AcquisitorSimple::Imon);
}
