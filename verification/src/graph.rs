use vstd::prelude::*;
use vstd::arithmetic::div_mod::{lemma_div_by_multiple, lemma_div_is_ordered};
use vstd::arithmetic::mul::lemma_mul_inequality;

verus! {

/// Margin around the graph inside which a selection keeps going.
pub const SELECTION_MARGIN: i32 = 40;

/// Whether `coordinates` fall inside the graph bounds (half-open ranges), widened by the
/// selection margin when `expand_limits` is set.
pub fn is_inside_graph(
    coordinates: (i32, i32),
    limits_x: (i32, i32),
    limits_y: (i32, i32),
    expand_limits: bool,
) -> (inside: bool)
    requires
        expand_limits ==> {
            &&& limits_x.0 - SELECTION_MARGIN >= i32::MIN
            &&& limits_x.1 + SELECTION_MARGIN <= i32::MAX
            &&& limits_y.0 - SELECTION_MARGIN >= i32::MIN
            &&& limits_y.1 + SELECTION_MARGIN <= i32::MAX
        },
    ensures
        inside == if expand_limits {
            limits_x.0 - SELECTION_MARGIN <= coordinates.0 < limits_x.1 + SELECTION_MARGIN
                && limits_y.0 - SELECTION_MARGIN <= coordinates.1 < limits_y.1 + SELECTION_MARGIN
        } else {
            limits_x.0 <= coordinates.0 < limits_x.1 && limits_y.0 <= coordinates.1 < limits_y.1
        },
{
    if expand_limits {
        (limits_x.0 - SELECTION_MARGIN) <= coordinates.0 && coordinates.0 < (limits_x.1
            + SELECTION_MARGIN) && (limits_y.0 - SELECTION_MARGIN) <= coordinates.1
            && coordinates.1 < (limits_y.1 + SELECTION_MARGIN)
    } else {
        limits_x.0 <= coordinates.0 && coordinates.0 < limits_x.1 && limits_y.0 <= coordinates.1
            && coordinates.1 < limits_y.1
    }
}

/// Converts window coordinates to coordinates relative to the graph's corner.
pub fn global_to_graph_pixel(coordinates: (i32, i32)) -> (local: (i32, i32))
    requires
        coordinates.0 - 214 >= i32::MIN,
        coordinates.1 - 10 >= i32::MIN,
    ensures
        local == ((coordinates.0 - 214) as i32, (coordinates.1 - 10) as i32),
{
    (coordinates.0 - 214, coordinates.1 - 10)
}

/// Keeps a coordinate at least 2 pixels inside `[0, size]`.
pub open spec fn clip_coordinate(c: int, size: int) -> int {
    if c < 2 {
        2
    } else if c > size - 2 {
        size - 2
    } else {
        c
    }
}

/// Keeps a point at least 2 pixels inside the graph.
pub fn clip_to_graph(local_coordinates: (i32, i32), graph_size: (i32, i32)) -> (clipped: (i32, i32))
    requires
        graph_size.0 - 2 >= i32::MIN,
        graph_size.1 - 2 >= i32::MIN,
    ensures
        clipped.0 == clip_coordinate(local_coordinates.0 as int, graph_size.0 as int),
        clipped.1 == clip_coordinate(local_coordinates.1 as int, graph_size.1 as int),
{
    let x = if local_coordinates.0 < 2 {
        2
    } else if local_coordinates.0 > graph_size.0 - 2 {
        graph_size.0 - 2
    } else {
        local_coordinates.0
    };

    let y = if local_coordinates.1 < 2 {
        2
    } else if local_coordinates.1 > graph_size.1 - 2 {
        graph_size.1 - 2
    } else {
        local_coordinates.1
    };

    (x, y)
}

/// The plotting area of an svg: the svg minus the room of the axis labels.
pub fn svg_to_graph_size(svg_size: (i32, i32)) -> (graph_size: (i32, i32))
    requires
        svg_size.0 - 40 >= i32::MIN,
        svg_size.1 - 16 >= i32::MIN,
    ensures
        graph_size == ((svg_size.0 - 40) as i32, (svg_size.1 - 16) as i32),
{
    (svg_size.0 - 40, svg_size.1 - 16)
}

/// The selection rectangle between the point where the pointer went down and where it is now,
/// in graph coordinates: the end is clipped to the graph, and the corners are ordered.
pub fn fix_positions(start_position: (i32, i32), end_position: (i32, i32), svg_size: (i32, i32)) -> (r: (
    (i32, i32),
    (i32, i32),
))
    requires
        start_position.0 - 214 >= i32::MIN,
        start_position.1 - 10 >= i32::MIN,
        end_position.0 - 214 >= i32::MIN,
        end_position.1 - 10 >= i32::MIN,
        svg_size.0 - 42 >= i32::MIN,
        svg_size.1 - 18 >= i32::MIN,
    ensures
        ({
            let sx = start_position.0 - 214;
            let sy = start_position.1 - 10;
            let ex = clip_coordinate(end_position.0 - 214, svg_size.0 - 40);
            let ey = clip_coordinate(end_position.1 - 10, svg_size.1 - 16);
            &&& r.0.0 == if sx <= ex { sx } else { ex }
            &&& r.1.0 == if sx <= ex { ex } else { sx }
            &&& r.0.1 == if sy <= ey { sy } else { ey }
            &&& r.1.1 == if sy <= ey { ey } else { sy }
        }),
        r.0.0 <= r.1.0,
        r.0.1 <= r.1.1,
{
    let (mut start_x, mut start_y) = global_to_graph_pixel(start_position);
    let (end_x, end_y) = global_to_graph_pixel(end_position);

    let graph_size = svg_to_graph_size(svg_size);
    let (mut end_x, mut end_y) = clip_to_graph((end_x, end_y), graph_size);

    if start_x > end_x {
        let t = start_x;
        start_x = end_x;
        end_x = t;
    }
    if start_y > end_y {
        let t = start_y;
        start_y = end_y;
        end_y = t;
    }

    ((start_x, start_y), (end_x, end_y))
}

/// The horizontal and vertical pixel ranges the graph takes in the window.
pub fn graph_bounds(svg_size: (i32, i32)) -> (bounds: ((i32, i32), (i32, i32)))
    requires
        210 + svg_size.0 <= i32::MAX,
        5 + svg_size.1 <= i32::MAX,
        210 + svg_size.0 - 40 <= i32::MAX,
        210 + svg_size.0 - 40 >= i32::MIN,
        5 + svg_size.1 - 16 <= i32::MAX,
        5 + svg_size.1 - 16 >= i32::MIN,
    ensures
        bounds == ((210i32, (210 + svg_size.0 - 40) as i32), (5i32, (5 + svg_size.1 - 16) as i32)),
{
    let min_x: i32 = 210;
    let min_y: i32 = 5;
    ((min_x, min_x + svg_size.0 - 40), (min_y, min_y + svg_size.1 - 16))
}

/// Positions of the grid lines across a graph side of `size` pixels, about one every
/// `spacing` pixels: `size` is split into `size / spacing + 1` equal parts.
pub open spec fn grid_lines(size: int, spacing: int) -> Seq<int> {
    let n = size / spacing + 1;
    if n <= 1 {
        Seq::empty()
    } else {
        Seq::new((n - 1) as nat, |k: int| ((k + 1) * size) / n)
    }
}

/// Positions of the grid lines across a graph side of `size` pixels.
pub fn grid_divisions(size: i32, spacing: i32) -> (divs: Vec<i32>)
    requires
        spacing > 0,
        size / spacing < i32::MAX,
        size >= spacing ==> (size / spacing) * size <= i32::MAX,
    ensures
        divs@.len() == grid_lines(size as int, spacing as int).len(),
        forall|k: int| 0 <= k < divs@.len() ==> divs@[k] as int == #[trigger] grid_lines(size as int, spacing as int)[k],
{
    let mut divs: Vec<i32> = Vec::new();
    if size < spacing {
        assert((size as int) / (spacing as int) <= 0) by (nonlinear_arith)
            requires
                size < spacing,
                spacing > 0,
        ;
        return divs;
    }
    assert((size as int) / (spacing as int) >= 1) by (nonlinear_arith)
        requires
            size >= spacing,
            spacing > 0,
    ;
    let n = size / spacing + 1;
    let mut x: i32 = 1;
    while x < n
        invariant
            1 <= x <= n,
            n == size / spacing + 1,
            n >= 2,
            size > 0,
            spacing > 0,
            (size / spacing) * size <= i32::MAX,
            divs@.len() == x - 1,
            forall|k: int| 0 <= k < divs@.len() ==> divs@[k] as int == ((k + 1) * size) / (n as int),
        decreases n - x,
    {
        assert(x * size <= (size / spacing) * size) by (nonlinear_arith)
            requires
                x <= size / spacing,
                size > 0,
        ;
        assert(x * size >= 0) by (nonlinear_arith)
            requires
                x >= 1,
                size > 0,
        ;
        let v = (x * size) / n;
        divs.push(v);
        x = x + 1;
    }
    divs
}

// Region: zoom selection ------------------------------------------------------------------

/// The zoom selection of the graph: whether a rectangle is being drawn, from where, and up to
/// where the pointer is.
#[derive(Debug, Clone, Copy)]
pub struct Selection {
    pub selecting: bool,
    pub start: (i32, i32),
    pub position: (i32, i32),
}

/// What the pointer did, with its position in the window where it has one.
#[derive(Debug, Clone, Copy)]
pub enum PointerEvent {
    Down((i32, i32)),
    Move((i32, i32)),
    Up,
    RightDown((i32, i32)),
}

/// What the graph asks for after a pointer event.
#[derive(Debug, Clone, Copy)]
pub enum GraphAction {
    Nothing,
    /// Zoom into the rectangle, given by its corners in graph pixels.
    Zoom(((i32, i32), (i32, i32))),
    /// Go back to the limits of the spectra.
    ResetZoom,
}

/// No rectangle is being drawn.
pub fn no_selection() -> (s: Selection)
    ensures
        !s.selecting,
{
    Selection { selecting: false, start: (0, 0), position: (0, 0) }
}

/// The sizes of an svg whose bounds and selections stay within `i32`.
pub open spec fn svg_size_in_range(svg_size: (i32, i32)) -> bool {
    &&& i32::MIN + 42 <= svg_size.0 <= i32::MAX - 210
    &&& i32::MIN + 18 <= svg_size.1 <= i32::MAX - 29
}

pub open spec fn inside_bounds(p: (i32, i32), svg_size: (i32, i32), margin: int) -> bool {
    &&& 210 - margin <= p.0 < 210 + svg_size.0 - 40 + margin
    &&& 5 - margin <= p.1 < 5 + svg_size.1 - 16 + margin
}

/// The corners of the selection from `start` to `end`, as `fix_positions` computes them.
pub open spec fn selection_rectangle(start: (i32, i32), end: (i32, i32), svg_size: (i32, i32)) -> (
    (int, int),
    (int, int),
) {
    let sx = start.0 - 214;
    let sy = start.1 - 10;
    let ex = clip_coordinate(end.0 - 214, svg_size.0 - 40);
    let ey = clip_coordinate(end.1 - 10, svg_size.1 - 16);
    (
        (if sx <= ex { sx } else { ex }, if sy <= ey { sy } else { ey }),
        (if sx <= ex { ex } else { sx }, if sy <= ey { ey } else { sy }),
    )
}

/// What the selection keeps true between events: a rectangle being drawn starts inside the
/// graph and ends inside the graph widened by the selection margin.
pub open spec fn selection_valid(s: Selection, svg_size: (i32, i32)) -> bool {
    s.selecting ==> inside_bounds(s.start, svg_size, 0) && inside_bounds(
        s.position,
        svg_size,
        SELECTION_MARGIN as int,
    )
}

/// The coordinates of a selection that `fix_positions` can take.
pub open spec fn selection_in_range(s: Selection) -> bool {
    &&& s.start.0 >= i32::MIN + 214 && s.start.1 >= i32::MIN + 10
    &&& s.position.0 >= i32::MIN + 214 && s.position.1 >= i32::MIN + 10
}

/// The selection after a pointer event, and what the graph must do: a press inside the graph
/// starts a rectangle, a move outside the widened graph abandons it, a release zooms into it,
/// and a right press inside the graph resets the zoom.
pub fn selection_step(s: Selection, event: PointerEvent, svg_size: (i32, i32)) -> (r: (
    Selection,
    GraphAction,
))
    requires
        svg_size_in_range(svg_size),
        s.selecting ==> selection_in_range(s),
    ensures
        r.0.selecting ==> selection_in_range(r.0),
        selection_valid(s, svg_size) ==> selection_valid(r.0, svg_size),
        match event {
            PointerEvent::Down(p) => r.1 == GraphAction::Nothing && if inside_bounds(p, svg_size, 0) {
                r.0 == Selection { selecting: true, start: p, position: p }
            } else {
                r.0 == s
            },
            PointerEvent::Move(p) => r.1 == GraphAction::Nothing && if !s.selecting {
                r.0 == s
            } else if inside_bounds(p, svg_size, SELECTION_MARGIN as int) {
                r.0 == Selection { position: p, ..s }
            } else {
                r.0 == Selection { selecting: false, ..s }
            },
            PointerEvent::Up => !r.0.selecting && r.0.start == s.start && r.0.position == s.position
                && if s.selecting {
                r.1 matches GraphAction::Zoom(rect) && rect.0.0 == selection_rectangle(
                    s.start,
                    s.position,
                    svg_size,
                ).0.0 && rect.0.1 == selection_rectangle(s.start, s.position, svg_size).0.1
                    && rect.1.0 == selection_rectangle(s.start, s.position, svg_size).1.0
                    && rect.1.1 == selection_rectangle(s.start, s.position, svg_size).1.1
            } else {
                r.1 == GraphAction::Nothing
            },
            PointerEvent::RightDown(p) => r.0 == s && r.1 == if inside_bounds(p, svg_size, 0) {
                GraphAction::ResetZoom
            } else {
                GraphAction::Nothing
            },
        },
{
    let bounds = graph_bounds(svg_size);
    match event {
        PointerEvent::Down(p) => {
            if is_inside_graph(p, bounds.0, bounds.1, false) {
                (Selection { selecting: true, start: p, position: p }, GraphAction::Nothing)
            } else {
                (s, GraphAction::Nothing)
            }
        },
        PointerEvent::Move(p) => {
            if !s.selecting {
                (s, GraphAction::Nothing)
            } else if is_inside_graph(p, bounds.0, bounds.1, true) {
                (Selection { position: p, ..s }, GraphAction::Nothing)
            } else {
                (Selection { selecting: false, ..s }, GraphAction::Nothing)
            }
        },
        PointerEvent::Up => {
            if s.selecting {
                let rect = fix_positions(s.start, s.position, svg_size);
                (Selection { selecting: false, ..s }, GraphAction::Zoom(rect))
            } else {
                (s, GraphAction::Nothing)
            }
        },
        PointerEvent::RightDown(p) => {
            if is_inside_graph(p, bounds.0, bounds.1, false) {
                (s, GraphAction::ResetZoom)
            } else {
                (s, GraphAction::Nothing)
            }
        },
    }
}

/// A zoom rectangle always has its first corner above and to the left of the second, and its
/// second corner at least 2 pixels inside a graph of at least 4 pixels a side.
pub proof fn law_zoom_rectangle_ordered(start: (i32, i32), end: (i32, i32), svg_size: (i32, i32))
    requires
        svg_size.0 - 40 >= 4,
        svg_size.1 - 16 >= 4,
    ensures
        ({
            let r = selection_rectangle(start, end, svg_size);
            &&& r.0.0 <= r.1.0
            &&& r.0.1 <= r.1.1
        }),
        2 <= clip_coordinate(end.0 - 214, svg_size.0 - 40) <= svg_size.0 - 42,
        2 <= clip_coordinate(end.1 - 10, svg_size.1 - 16) <= svg_size.1 - 18,
{
}

// Region: laws of the graph geometry --------------------------------------------------------

/// A clipped coordinate lies at least 2 pixels inside a side of at least 4 pixels, and a
/// coordinate already there is left as it is.
pub proof fn law_clip_inside(c: int, size: int)
    requires
        size >= 4,
    ensures
        2 <= clip_coordinate(c, size) <= size - 2,
        2 <= c <= size - 2 ==> clip_coordinate(c, size) == c,
        clip_coordinate(clip_coordinate(c, size), size) == clip_coordinate(c, size),
{
}

/// The grid lines of a side lie inside it, from its start to its end, in increasing order.
pub proof fn law_grid_lines_ordered(size: int, spacing: int)
    requires
        size >= 0,
        spacing > 0,
    ensures
        forall|k: int|
            0 <= k < grid_lines(size, spacing).len() ==> 0 <= #[trigger] grid_lines(size, spacing)[k]
                <= size,
        forall|i: int, j: int|
            0 <= i <= j < grid_lines(size, spacing).len() ==> grid_lines(size, spacing)[i]
                <= grid_lines(size, spacing)[j],
{
    let n = size / spacing + 1;
    assert(n >= 1) by (nonlinear_arith)
        requires
            size >= 0,
            spacing > 0,
            n == size / spacing + 1,
    ;
    let g = grid_lines(size, spacing);
    assert forall|k: int| 0 <= k < g.len() implies 0 <= #[trigger] g[k] <= size by {
        lemma_mul_inequality(0, k + 1, size);
        lemma_mul_inequality(k + 1, n, size);
        lemma_div_is_ordered(0, (k + 1) * size, n);
        lemma_div_is_ordered((k + 1) * size, n * size, n);
        assert(n * size == size * n) by (nonlinear_arith);
        lemma_div_by_multiple(size, n);
    }
    assert forall|i: int, j: int| 0 <= i <= j < g.len() implies g[i] <= g[j] by {
        lemma_mul_inequality(i + 1, j + 1, size);
        lemma_div_is_ordered((i + 1) * size, (j + 1) * size, n);
    }
}

} // verus!
