use vstd::prelude::*;

pub mod acquisitors;

verus! {

/// Whether `c` is an ASCII decimal digit.
pub open spec fn is_digit_char(c: char) -> bool {
    '0' <= c && c <= '9'
}

/// The value of the two digit characters `a` and `b`.
pub open spec fn two_digit_value(a: char, b: char) -> int {
    (a as int - '0' as int) * 10 + (b as int - '0' as int)
}

/// The shape of a clock label: `(HH:MM)` with an hour below 24 and a minute below 60.
pub open spec fn is_clock_label(s: Seq<char>) -> bool {
    &&& s.len() == 7
    &&& s[0] == '(' && s[3] == ':' && s[6] == ')'
    &&& is_digit_char(s[1]) && is_digit_char(s[2])
    &&& is_digit_char(s[4]) && is_digit_char(s[5])
    &&& two_digit_value(s[1], s[2]) < 24
    &&& two_digit_value(s[4], s[5]) < 60
}

/// The local time formatted by chrono (`Local::now().format("(%H:%M)")`). chrono documents
/// `%H` as the zero-padded hour from 00 to 23 and `%M` as the zero-padded minute from 00 to
/// 59; which hour and minute come back depends on the clock, and is not stated.
#[verifier::external_body]
fn local_clock_label() -> (label: String)
    ensures
        is_clock_label(label@),
{
    chrono::Local::now().format("(%H:%M)").to_string()
}

/// The current local time as the interface shows it, `(HH:MM)`.
pub fn get_time() -> (label: String)
    ensures
        is_clock_label(label@),
{
    local_clock_label()
}

/// Width of the side bar, in pixels, taken from the window width.
pub const SIDE_BAR_WIDTH: u32 = 200;

/// Horizontal margin around the graph, in pixels.
pub const GRAPH_MARGIN_X: u32 = 23;

/// Height of the lower bar, in pixels, taken from the window height.
pub const LOWER_BAR_HEIGHT: u32 = 32;

/// Vertical margin around the graph, in pixels.
pub const GRAPH_MARGIN_Y: u32 = 27;

/// Whether a window of this size is one the graph size can be computed for: a minimized
/// window (width 0), or one that holds the side bar, the lower bar and the margins.
pub open spec fn svg_size_defined(window_size: (u32, u32)) -> bool {
    window_size.0 == 0 || (window_size.0 >= GRAPH_MARGIN_X + SIDE_BAR_WIDTH
        && window_size.1 >= GRAPH_MARGIN_Y + LOWER_BAR_HEIGHT)
}

/// The size of the graph drawing inside a window of `window_size`; `(0, 0)` for a minimized
/// window.
pub fn get_svg_size(window_size: (u32, u32)) -> (svg_size: (u32, u32))
    requires
        svg_size_defined(window_size),
    ensures
        svg_size == if window_size.0 == 0 {
            (0u32, 0u32)
        } else {
            (
                (window_size.0 - GRAPH_MARGIN_X - SIDE_BAR_WIDTH) as u32,
                (window_size.1 - GRAPH_MARGIN_Y - LOWER_BAR_HEIGHT) as u32,
            )
        },
{
    if window_size.0 == 0 {
        return (0, 0);
    }
    (
        window_size.0 - GRAPH_MARGIN_X - SIDE_BAR_WIDTH,
        window_size.1 - GRAPH_MARGIN_Y - LOWER_BAR_HEIGHT,
    )
}

} // verus!
