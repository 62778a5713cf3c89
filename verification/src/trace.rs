use vstd::prelude::*;

use crate::seq_lemmas::lemma_filter_keeps_all;

use crate::text::{decimal_chars, push_char, push_decimal};

verus! {

/// Number of letters used to name traces.
pub const LETTER_COUNT: u8 = 26;

/// Number of colors of the palette.
pub const COLOR_COUNT: u8 = 9;

/// The name of a trace: a capital letter for the first ids, the id in decimal after that.
pub open spec fn trace_name(id: u8) -> Seq<char> {
    if id < LETTER_COUNT {
        seq![((65 + id) as u8) as char]
    } else {
        decimal_chars(id as nat)
    }
}

/// The palette, indexed from 0 to `COLOR_COUNT - 1`.
pub open spec fn palette_color(i: int) -> Seq<char> {
    if i == 0 {
        "#ff9e3b"@
    } else if i == 1 {
        "#7e9cd8"@
    } else if i == 2 {
        "#e82424"@
    } else if i == 3 {
        "#957fb8"@
    } else if i == 4 {
        "#7aa89f"@
    } else if i == 5 {
        "#d27e99"@
    } else if i == 6 {
        "#76946a"@
    } else if i == 7 {
        "#717c7c"@
    } else {
        "#ffa066"@
    }
}

/// Color of the active trace.
pub open spec fn active_color() -> Seq<char> {
    "#C8C093"@
}

pub fn trace_id_to_name(id: u8) -> (name: String)
    ensures
        name@ == trace_name(id),
{
    let mut name = String::new();
    if id < LETTER_COUNT {
        push_char(&mut name, (65u8 + id) as char);
    } else {
        push_decimal(&mut name, id as u64);
    }
    name
}

fn palette(i: u8) -> (color: &'static str)
    requires
        i < COLOR_COUNT,
    ensures
        color@ == palette_color(i as int),
{
    if i == 0 {
        "#ff9e3b"
    } else if i == 1 {
        "#7e9cd8"
    } else if i == 2 {
        "#e82424"
    } else if i == 3 {
        "#957fb8"
    } else if i == 4 {
        "#7aa89f"
    } else if i == 5 {
        "#d27e99"
    } else if i == 6 {
        "#76946a"
    } else if i == 7 {
        "#717c7c"
    } else {
        "#ffa066"
    }
}

/// The palette color of an id; the palette repeats every `COLOR_COUNT` ids.
pub fn trace_id_to_color(id: u8) -> (color: String)
    ensures
        color@ == palette_color((id % COLOR_COUNT) as int),
{
    palette(id % COLOR_COUNT).to_owned()
}

/// The style that paints a trace's name with the color of its id.
pub fn trace_id_to_style(id: u8) -> (style: String)
    ensures
        style@ == "background-color: "@ + palette_color((id % COLOR_COUNT) as int) + ";"@,
{
    let mut style = "background-color: ".to_owned();
    let color = trace_id_to_color(id);
    style.append(color.as_str());
    style.append(";");
    style
}


/// A trace of the graph: the live spectrum, or a frozen one. `data` holds what is drawn
/// (the path's markers and the information it was drawn with).
#[derive(Clone, Debug)]
pub struct Trace<P> {
    pub id: u8,
    pub visible: bool,
    pub draw_valleys: bool,
    pub draw_valleys_mean: bool,
    pub color_id: Option<u8>,
    pub active: bool,
    pub svg_path: String,
    /// `None` while the trace is active.
    pub freeze_time: Option<String>,
    pub data: P,
}

/// The color a trace is drawn with.
pub open spec fn trace_color<P>(t: Trace<P>) -> Seq<char> {
    if t.active {
        active_color()
    } else {
        match t.color_id {
            Some(c) => palette_color((c % COLOR_COUNT) as int),
            None => palette_color((t.id % COLOR_COUNT) as int),
        }
    }
}

/// The color group after `color_id`: no group, then each palette color, then no group again.
pub open spec fn next_color_id(color_id: Option<u8>) -> Option<u8> {
    match color_id {
        Some(c) => if c + 1 >= COLOR_COUNT {
            None
        } else {
            Some((c + 1) as u8)
        },
        None => Some(0u8),
    }
}

/// The first trace of the list: active, visible, with valleys and means drawn.
pub fn first_trace<P>(data: P) -> (t: Trace<P>)
    ensures
        t.id == 0,
        t.visible,
        t.draw_valleys,
        t.draw_valleys_mean,
        t.color_id is None,
        t.active,
        t.svg_path@ == Seq::<char>::empty(),
        t.freeze_time is None,
        t.data == data,
{
    Trace {
        id: 0,
        visible: true,
        draw_valleys: true,
        draw_valleys_mean: true,
        color_id: None,
        active: true,
        svg_path: String::new(),
        freeze_time: None,
        data,
    }
}

/// The trace that follows `last_active`: the next id, the same display options, active and
/// with nothing drawn yet.
pub fn new_trace<P>(last_active: &Trace<P>, data: P) -> (t: Trace<P>)
    requires
        last_active.id < u8::MAX,
    ensures
        t.id == last_active.id + 1,
        t.visible == last_active.visible,
        t.draw_valleys == last_active.draw_valleys,
        t.draw_valleys_mean == last_active.draw_valleys_mean,
        t.color_id == last_active.color_id,
        t.active,
        t.svg_path@ == Seq::<char>::empty(),
        t.freeze_time is None,
        t.data == data,
{
    Trace {
        id: last_active.id + 1,
        visible: last_active.visible,
        draw_valleys: last_active.draw_valleys,
        draw_valleys_mean: last_active.draw_valleys_mean,
        color_id: last_active.color_id,
        active: true,
        svg_path: String::new(),
        freeze_time: None,
        data,
    }
}

impl<P> Trace<P> {
    /// The color the trace is drawn with.
    pub fn get_color(&self) -> (color: String)
        ensures
            color@ == trace_color(*self),
    {
        if self.active {
            return "#C8C093".to_owned();
        }
        match self.color_id {
            Some(color_id) => trace_id_to_color(color_id),
            None => trace_id_to_color(self.id),
        }
    }

    /// The style of the trace's name.
    pub fn name_style(&self) -> (style: String)
        ensures
            style@ == "background-color: "@ + trace_color(*self) + ";"@,
    {
        let mut style = "background-color: ".to_owned();
        let color = self.get_color();
        style.append(color.as_str());
        style.append(";");
        style
    }

    /// The style of the group button: the group's color, or nothing when the trace has no group.
    pub fn group_style(&self) -> (style: String)
        ensures
            style@ == match self.color_id {
                Some(c) => "background-color: "@ + palette_color((c % COLOR_COUNT) as int)
                    + "; color: #54546D;"@,
                None => Seq::<char>::empty(),
            },
    {
        match self.color_id {
            Some(color_id) => {
                let mut style = "background-color: ".to_owned();
                let color = trace_id_to_color(color_id);
                style.append(color.as_str());
                style.append("; color: #54546D;");
                style
            },
            None => String::new(),
        }
    }

    /// Moves the trace to the next color group.
    pub fn change_color(&mut self)
        requires
            old(self).color_id matches Some(c) ==> c < u8::MAX,
        ensures
            final(self).color_id == next_color_id(old(self).color_id),
            *final(self) == (Trace { color_id: final(self).color_id, ..*old(self) }),
    {
        match self.color_id {
            Some(color_id) => {
                if color_id + 1 >= COLOR_COUNT {
                    self.color_id = None;
                } else {
                    self.color_id = Some(color_id + 1);
                }
            },
            None => {
                self.color_id = Some(0);
            },
        }
    }

    /// Takes the trace out of its color group.
    pub fn reset_color(&mut self)
        ensures
            *final(self) == (Trace { color_id: None, ..*old(self) }),
    {
        self.color_id = None;
    }
}


// Region: the list of traces -----------------------------------------------------

/// The key that tells two renderings of a trace's buttons apart.
pub open spec fn trace_key<P>(t: Trace<P>) -> int {
    (if t.active { 1int } else { 0int }) + (if t.visible { 2int } else { 0int }) + (if t.draw_valleys {
        4int
    } else {
        0int
    }) + (if t.draw_valleys_mean { 8int } else { 0int }) + (t.id as int) * 16 + (match t.color_id {
        Some(c) => c as int,
        None => 255int,
    }) * 4096
}

/// Packs the flags, the id and the color group of a trace into one number.
pub fn trace_info_identifier<P>(trace: &Trace<P>) -> (key: u64)
    ensures
        key == trace_key(*trace),
{
    let active: u64 = if trace.active { 1 } else { 0 };
    let visible: u64 = (if trace.visible { 1 } else { 0 }) * 2;
    let draw_valleys: u64 = (if trace.draw_valleys { 1 } else { 0 }) * 4;
    let draw_valleys_mean: u64 = (if trace.draw_valleys_mean { 1 } else { 0 }) * 8;
    let id: u64 = (trace.id as u64) * 16;
    let color: u8 = match trace.color_id {
        Some(c) => c,
        None => 255,
    };
    let color_id: u64 = (color as u64) * 4096;

    active + visible + draw_valleys + draw_valleys_mean + id + color_id
}

/// Whether the trace at each position carries that position as its id.
pub open spec fn ids_are_positions<P>(traces: Seq<Trace<P>>) -> bool {
    &&& traces.len() <= 256
    &&& forall|i: int| 0 <= i < traces.len() ==> #[trigger] traces[i].id == i
}

/// Freezes the trace `id` at `time`, unless nothing was drawn on it, and starts a new active
/// trace after it. Returns whether it froze.
pub fn freeze_trace<P>(traces: &mut Vec<Trace<P>>, id: usize, time: String, data: P) -> (frozen:
    bool)
    requires
        id < old(traces)@.len(),
        old(traces)@[id as int].svg_path@.len() > 0 ==> old(traces)@[id as int].id < u8::MAX,
    ensures
        frozen == (old(traces)@[id as int].svg_path@.len() > 0),
        !frozen ==> final(traces)@ == old(traces)@,
        frozen ==> {
            let t = old(traces)@[id as int];
            let f = Trace { freeze_time: Some(time), active: false, ..t };
            &&& final(traces)@.len() == old(traces)@.len() + 1
            &&& final(traces)@.take(old(traces)@.len() as int) == old(traces)@.update(id as int, f)
            &&& final(traces)@.last() == Trace {
                id: (t.id + 1) as u8,
                visible: t.visible,
                draw_valleys: t.draw_valleys,
                draw_valleys_mean: t.draw_valleys_mean,
                color_id: t.color_id,
                active: true,
                svg_path: final(traces)@.last().svg_path,
                freeze_time: None,
                data: data,
            }
            &&& final(traces)@.last().svg_path@ == Seq::<char>::empty()
        },
{
    if traces[id].svg_path.as_str().is_empty() {
        return false;
    }
    let ghost before = traces@;
    traces[id].freeze_time = Some(time);
    traces[id].active = false;
    let next = new_trace(&traces[id], data);
    traces.push(next);
    assert(traces@.take(before.len() as int) =~= before.update(
        id as int,
        Trace { freeze_time: traces@[id as int].freeze_time, active: false, ..before[id as int] },
    ));
    true
}

/// Removes the trace at `id` and renumbers the others by their positions.
pub fn delete_trace<P>(traces: &mut Vec<Trace<P>>, id: usize)
    requires
        id < old(traces)@.len(),
    ensures
        final(traces)@.len() == old(traces)@.len() - 1,
        forall|i: int|
            0 <= i < final(traces)@.len() ==> #[trigger] final(traces)@[i] == (Trace {
                id: i as u8,
                ..old(traces)@.remove(id as int)[i]
            }),
{
    traces.remove(id);
    let ghost removed = traces@;
    let n = traces.len();
    for i in 0..n
        invariant
            n == traces@.len(),
            removed.len() == n,
            forall|k: int|
                0 <= k < i ==> #[trigger] traces@[k] == (Trace { id: k as u8, ..removed[k] }),
            forall|k: int| i <= k < n ==> #[trigger] traces@[k] == removed[k],
    {
        traces[i].id = i as u8;
    }
}

/// Whether the trace is frozen and belongs to the color group `group`.
pub open spec fn in_group<P>(t: Trace<P>, group: u8) -> bool {
    t.color_id == Some(group) && !t.active
}

/// The ids of the frozen traces of `group`, in the order of the list.
pub open spec fn group_ids_upto<P>(traces: Seq<Trace<P>>, group: u8, n: int) -> Seq<u8>
    decreases n,
{
    if n <= 0 {
        seq![]
    } else {
        let prev = group_ids_upto(traces, group, n - 1);
        if in_group(traces[n - 1], group) {
            prev.push(traces[n - 1].id)
        } else {
            prev
        }
    }
}

/// The ids of the frozen traces in the color group of the trace `main_id`, in the order of the
/// list; none when that trace has no group.
pub open spec fn grouped_ids<P>(traces: Seq<Trace<P>>, main_id: int) -> Seq<u8> {
    match traces[main_id].color_id {
        Some(g) => group_ids_upto(traces, g, traces.len() as int),
        None => seq![],
    }
}

pub fn get_grouped_trace_ids<P>(main_id: usize, traces: &Vec<Trace<P>>) -> (ids: Vec<u8>)
    requires
        main_id < traces@.len(),
    ensures
        ids@ == grouped_ids(traces@, main_id as int),
{
    let group_id = match traces[main_id].color_id {
        Some(color_id) => color_id,
        None => {
            return Vec::new();
        },
    };
    let n = traces.len();
    let mut ids: Vec<u8> = Vec::new();
    for i in 0..n
        invariant
            n == traces@.len(),
            traces@[main_id as int].color_id == Some(group_id),
            ids@ == group_ids_upto(traces@, group_id, i as int),
    {
        if traces[i].color_id == Some(group_id) && !traces[i].active {
            ids.push(traces[i].id);
        }
    }
    ids
}

/// Which display option a group action changes.
pub enum TraceFlag {
    Visible,
    DrawValleys,
    DrawValleysMean,
}

pub open spec fn flag_of<P>(t: Trace<P>, flag: TraceFlag) -> bool {
    match flag {
        TraceFlag::Visible => t.visible,
        TraceFlag::DrawValleys => t.draw_valleys,
        TraceFlag::DrawValleysMean => t.draw_valleys_mean,
    }
}

pub open spec fn with_flag<P>(t: Trace<P>, flag: TraceFlag, value: bool) -> Trace<P> {
    match flag {
        TraceFlag::Visible => Trace { visible: value, ..t },
        TraceFlag::DrawValleys => Trace { draw_valleys: value, ..t },
        TraceFlag::DrawValleysMean => Trace { draw_valleys_mean: value, ..t },
    }
}

fn set_flag<P>(trace: &mut Trace<P>, flag: &TraceFlag, value: bool)
    ensures
        *final(trace) == with_flag(*old(trace), *flag, value),
{
    match flag {
        TraceFlag::Visible => trace.visible = value,
        TraceFlag::DrawValleys => trace.draw_valleys = value,
        TraceFlag::DrawValleysMean => trace.draw_valleys_mean = value,
    }
}

/// Flips one display option of the trace `id`.
pub fn toggle_trace_flag<P>(traces: &mut Vec<Trace<P>>, id: usize, flag: TraceFlag)
    requires
        id < old(traces)@.len(),
    ensures
        final(traces)@ == old(traces)@.update(
            id as int,
            with_flag(old(traces)@[id as int], flag, !flag_of(old(traces)@[id as int], flag)),
        ),
{
    let value = match flag {
        TraceFlag::Visible => !traces[id].visible,
        TraceFlag::DrawValleys => !traces[id].draw_valleys,
        TraceFlag::DrawValleysMean => !traces[id].draw_valleys_mean,
    };
    set_flag(&mut traces[id], &flag, value);
}

/// Sets one display option on every trace.
pub fn set_all_traces_flag<P>(traces: &mut Vec<Trace<P>>, flag: TraceFlag, value: bool)
    ensures
        final(traces)@.len() == old(traces)@.len(),
        forall|i: int|
            0 <= i < final(traces)@.len() ==> #[trigger] final(traces)@[i] == with_flag(
                old(traces)@[i],
                flag,
                value,
            ),
{
    let n = traces.len();
    for i in 0..n
        invariant
            n == traces@.len(),
            n == old(traces)@.len(),
            forall|k: int|
                0 <= k < i ==> #[trigger] traces@[k] == with_flag(old(traces)@[k], flag, value),
            forall|k: int| i <= k < n ==> #[trigger] traces@[k] == old(traces)@[k],
    {
        set_flag(&mut traces[i], &flag, value);
    }
}

/// Gives every frozen trace of the group of `main_id` the opposite of that trace's option.
pub fn toggle_group_flag<P>(traces: &mut Vec<Trace<P>>, main_id: usize, flag: TraceFlag)
    requires
        main_id < old(traces)@.len(),
        ids_are_positions(old(traces)@),
    ensures
        final(traces)@.len() == old(traces)@.len(),
        forall|i: int|
            0 <= i < final(traces)@.len() ==> #[trigger] final(traces)@[i] == if old(traces)@[
                main_id as int
            ].color_id is Some && in_group(
                old(traces)@[i],
                old(traces)@[main_id as int].color_id->0,
            ) {
                with_flag(old(traces)@[i], flag, !flag_of(old(traces)@[main_id as int], flag))
            } else {
                old(traces)@[i]
            },
{
    let value = match flag {
        TraceFlag::Visible => !traces[main_id].visible,
        TraceFlag::DrawValleys => !traces[main_id].draw_valleys,
        TraceFlag::DrawValleysMean => !traces[main_id].draw_valleys_mean,
    };
    let group_ids = get_grouped_trace_ids(main_id, traces);
    let ghost old_traces = traces@;
    let ghost ids = group_ids@;
    proof {
        if let Some(g) = old_traces[main_id as int].color_id {
            lemma_group_ids_are_positions(old_traces, g, old_traces.len() as int);
        }
    }
    let m = group_ids.len();
    for k in 0..m
        invariant
            m == ids.len(),
            ids == group_ids@,
            ids == grouped_ids(old_traces, main_id as int),
            main_id < old_traces.len(),
            traces@.len() == old_traces.len(),
            ids_are_positions(old_traces),
            old_traces[main_id as int].color_id matches Some(g) ==> {
                &&& forall|r: int| 0 <= r < ids.len() ==> (#[trigger] ids[r] as int) < old_traces.len()
                    && in_group(old_traces[ids[r] as int], g)
                &&& forall|a: int, b: int| 0 <= a < b < ids.len() ==> #[trigger] ids[a] < #[trigger] ids[b]
                &&& forall|p: int| 0 <= p < old_traces.len() && in_group(old_traces[p], g) ==>
                    exists|r: int| 0 <= r < ids.len() && #[trigger] ids[r] == p
            },
            old_traces[main_id as int].color_id is None ==> ids.len() == 0,
            forall|p: int|
                0 <= p < old_traces.len() ==> #[trigger] traces@[p] == if exists|r: int|
                    0 <= r < k && #[trigger] ids[r] == p {
                    with_flag(old_traces[p], flag, value)
                } else {
                    old_traces[p]
                },
    {
        let id = group_ids[k] as usize;
        set_flag(&mut traces[id], &flag, value);
        assert forall|p: int| 0 <= p < old_traces.len() implies #[trigger] traces@[p] == if exists|r: int|
            0 <= r < k + 1 && #[trigger] ids[r] == p {
            with_flag(old_traces[p], flag, value)
        } else {
            old_traces[p]
        } by {
            if p == id {
                assert(ids[k as int] == p);
                if exists|r: int| 0 <= r < k && #[trigger] ids[r] == p {
                    let r = choose|r: int| 0 <= r < k && #[trigger] ids[r] == p;
                    assert(ids[r] < ids[k as int]);
                }
            } else {
                if exists|r: int| 0 <= r < k + 1 && #[trigger] ids[r] == p {
                    let r = choose|r: int| 0 <= r < k + 1 && #[trigger] ids[r] == p;
                    assert(r != k);
                }
            }
        }
    }
    assert forall|i: int| 0 <= i < traces@.len() implies #[trigger] traces@[i] == if old_traces[
        main_id as int
    ].color_id is Some && in_group(old_traces[i], old_traces[main_id as int].color_id->0) {
        with_flag(old_traces[i], flag, !flag_of(old_traces[main_id as int], flag))
    } else {
        old_traces[i]
    } by {
        if let Some(g) = old_traces[main_id as int].color_id {
            if in_group(old_traces[i], g) {
                let r = choose|r: int| 0 <= r < ids.len() && #[trigger] ids[r] == i;
                assert(0 <= r < m);
            } else {
                if exists|r: int| 0 <= r < m && #[trigger] ids[r] == i {
                    let r = choose|r: int| 0 <= r < m && #[trigger] ids[r] == i;
                    assert(in_group(old_traces[ids[r] as int], g));
                }
            }
        }
    }
}

/// The traces that a group deletion keeps: all but the frozen traces of the group of `main_id`.
pub open spec fn kept_after_group_delete<P>(traces: Seq<Trace<P>>, main_id: int) -> Seq<Trace<P>> {
    match traces[main_id].color_id {
        Some(g) => traces.filter(|t: Trace<P>| !in_group(t, g)),
        None => traces,
    }
}

/// Deletes every frozen trace of the color group of `main_id`, removing them from the last to
/// the first, and renumbers the remaining traces by their positions. Returns the removed ids
/// in the order of removal.
pub fn delete_group<P>(traces: &mut Vec<Trace<P>>, main_id: usize) -> (deleted: Vec<u8>)
    requires
        main_id < old(traces)@.len(),
        ids_are_positions(old(traces)@),
    ensures
        deleted@ == grouped_ids(old(traces)@, main_id as int).reverse(),
        final(traces)@.len() == kept_after_group_delete(old(traces)@, main_id as int).len(),
        forall|i: int|
            0 <= i < final(traces)@.len() ==> #[trigger] final(traces)@[i] == (Trace {
                id: i as u8,
                ..kept_after_group_delete(old(traces)@, main_id as int)[i]
            }),
        ids_are_positions(final(traces)@),
{
    let ghost old_traces = traces@;
    let ids = get_grouped_trace_ids(main_id, traces);
    let ghost gids = ids@;
    let ghost keep = match old_traces[main_id as int].color_id {
        Some(g) => |t: Trace<P>| !in_group(t, g),
        None => |t: Trace<P>| true,
    };
    proof {
        if let Some(g) = old_traces[main_id as int].color_id {
            lemma_group_ids_are_positions(old_traces, g, old_traces.len() as int);
        } else {
            lemma_filter_keeps_all(old_traces, keep);
        }
        assert(old_traces.take(old_traces.len() as int) =~= old_traces);
        assert(old_traces.skip(old_traces.len() as int).filter(keep) =~= Seq::<Trace<P>>::empty())
            by {
            reveal(Seq::filter);
        }
        assert(kept_after_group_delete(old_traces, main_id as int) == old_traces.filter(keep));
    }
    let mut deleted: Vec<u8> = Vec::new();
    let mut j = ids.len();
    while j > 0
        invariant
            j <= gids.len(),
            gids == ids@,
            gids == grouped_ids(old_traces, main_id as int),
            main_id < old_traces.len(),
            ids_are_positions(old_traces),
            forall|t: Trace<P>| #[trigger] keep(t) == match old_traces[main_id as int].color_id {
                Some(g) => !in_group(t, g),
                None => true,
            },
            forall|r: int| 0 <= r < gids.len() ==> (#[trigger] gids[r] as int) < old_traces.len()
                && !keep(old_traces[gids[r] as int]),
            forall|a: int, b: int| 0 <= a < b < gids.len() ==> #[trigger] gids[a] < #[trigger] gids[b],
            forall|p: int| 0 <= p < old_traces.len() && !keep(old_traces[p]) ==>
                exists|r: int| 0 <= r < gids.len() && #[trigger] gids[r] == p,
            ({
                let b = if j == gids.len() { old_traces.len() as int } else { gids[j as int] as int };
                traces@ == old_traces.take(b) + old_traces.skip(b).filter(keep)
            }),
            deleted@ == gids.skip(j as int).reverse(),
        decreases j,
    {
        let ghost b = if j == gids.len() { old_traces.len() as int } else { gids[j as int] as int };
        j = j - 1;
        let id = ids[j];
        let ghost q = id as int;
        proof {
            assert(q < b);
            let mid = old_traces.subrange(q + 1, b);
            assert forall|i: int| 0 <= i < mid.len() implies keep(#[trigger] mid[i]) by {
                let p = q + 1 + i;
                assert(mid[i] == old_traces[p]);
                if !keep(old_traces[p]) {
                    let r = choose|r: int| 0 <= r < gids.len() && #[trigger] gids[r] == p;
                    if r < j {
                        assert(gids[r] < gids[j as int]);
                    } else if r > j {
                        if j + 1 < gids.len() {
                            assert(gids[j + 1] <= gids[r]);
                        }
                    }
                }
            }
            lemma_filter_keeps_all(mid, keep);
            assert(old_traces.skip(q) =~= seq![old_traces[q]] + (mid + old_traces.skip(b)));
            old_traces.skip(b).lemma_filter_prepend(old_traces[q], keep);
            (mid + old_traces.skip(b)).lemma_filter_prepend(old_traces[q], keep);
            Seq::filter_distributes_over_add(mid, old_traces.skip(b), keep);
        }
        traces.remove(id as usize);
        deleted.push(id);
        proof {
            let mid = old_traces.subrange(q + 1, b);
            assert(traces@ =~= old_traces.take(q) + (mid + old_traces.skip(b).filter(keep)));
            assert(gids.skip(j as int).reverse() =~= gids.skip(j + 1).reverse().push(gids[j as int]));
        }
    }
    proof {
        let b = if gids.len() == 0 { old_traces.len() as int } else { gids[0] as int };
        let pre = old_traces.take(b);
        assert forall|i: int| 0 <= i < pre.len() implies keep(#[trigger] pre[i]) by {
            if !keep(old_traces[i]) {
                let r = choose|r: int| 0 <= r < gids.len() && #[trigger] gids[r] == i;
                if r > 0 {
                    assert(gids[0] < gids[r]);
                }
            }
        }
        lemma_filter_keeps_all(pre, keep);
        assert(old_traces =~= pre + old_traces.skip(b));
        Seq::filter_distributes_over_add(pre, old_traces.skip(b), keep);
        assert(traces@ =~= old_traces.filter(keep));
        assert(gids.skip(0) =~= gids);
    }
    let ghost kept = traces@;
    let n = traces.len();
    proof {
        kept.lemma_filter_len(keep);
        old_traces.lemma_filter_len(keep);
    }
    for i in 0..n
        invariant
            n == traces@.len(),
            kept.len() == n,
            n <= 256,
            forall|k: int| 0 <= k < i ==> #[trigger] traces@[k] == (Trace { id: k as u8, ..kept[k] }),
            forall|k: int| i <= k < n ==> #[trigger] traces@[k] == kept[k],
    {
        traces[i].id = i as u8;
    }
    deleted
}

proof fn lemma_group_ids_are_positions<P>(traces: Seq<Trace<P>>, g: u8, n: int)
    requires
        ids_are_positions(traces),
        0 <= n <= traces.len(),
    ensures
        forall|r: int|
            0 <= r < group_ids_upto(traces, g, n).len() ==> (#[trigger] group_ids_upto(
                traces,
                g,
                n,
            )[r] as int) < n && in_group(traces[group_ids_upto(traces, g, n)[r] as int], g),
        forall|a: int, b: int|
            0 <= a < b < group_ids_upto(traces, g, n).len() ==> #[trigger] group_ids_upto(
                traces,
                g,
                n,
            )[a] < #[trigger] group_ids_upto(traces, g, n)[b],
        forall|p: int|
            0 <= p < n && in_group(traces[p], g) ==> exists|r: int|
                0 <= r < group_ids_upto(traces, g, n).len() && #[trigger] group_ids_upto(
                    traces,
                    g,
                    n,
                )[r] == p,
    decreases n,
{
    if n > 0 {
        lemma_group_ids_are_positions(traces, g, n - 1);
        let prev = group_ids_upto(traces, g, n - 1);
        let cur = group_ids_upto(traces, g, n);
        assert(traces[n - 1].id == n - 1);
        assert forall|p: int| 0 <= p < n && in_group(traces[p], g) implies exists|r: int|
            0 <= r < cur.len() && #[trigger] cur[r] == p by {
            if p < n - 1 {
                let r = choose|r: int| 0 <= r < prev.len() && #[trigger] prev[r] == p;
                assert(cur[r] == p);
            } else {
                assert(cur[prev.len() as int] == p);
            }
        }
    }
}

// Region: refreshing the drawn traces ---------------------------------------------------------

/// What to fetch again for one trace in a refresh cycle of the interface.
#[derive(Debug, Clone, Copy, PartialEq, Eq, Structural)]
pub enum Refresh {
    /// The trace is drawn as it is.
    Keep,
    /// Draw the live spectrum again.
    FetchLive,
    /// Draw the frozen spectrum at this position again.
    FetchFrozen(usize),
}

/// The refresh of the trace at position `i`: the last trace takes the new spectrum when one is
/// unread; a trace that was drawn is drawn again, from the live or its frozen spectrum, when
/// what it was drawn with changed (the window size, the limits or the detection).
pub open spec fn planned_refresh<P>(
    traces: Seq<Trace<P>>,
    unread: bool,
    info_changed: Seq<bool>,
    i: int,
) -> Refresh {
    if unread && i == traces.len() - 1 {
        Refresh::FetchLive
    } else if traces[i].svg_path@.len() > 0 && info_changed[i] {
        if traces[i].active {
            Refresh::FetchLive
        } else {
            Refresh::FetchFrozen(i as usize)
        }
    } else {
        Refresh::Keep
    }
}

/// The refresh of each trace in one cycle, in the order of the list.
pub fn refresh_plan<P>(traces: &Vec<Trace<P>>, unread: bool, info_changed: &Vec<bool>) -> (plan:
    Vec<Refresh>)
    requires
        info_changed@.len() == traces@.len(),
    ensures
        plan@.len() == traces@.len(),
        forall|i: int|
            0 <= i < plan@.len() ==> #[trigger] plan@[i] == planned_refresh(
                traces@,
                unread,
                info_changed@,
                i,
            ),
{
    let n = traces.len();
    let mut plan: Vec<Refresh> = Vec::new();
    for i in 0..n
        invariant
            n == traces@.len(),
            info_changed@.len() == n,
            plan@.len() == i,
            forall|k: int|
                0 <= k < i ==> #[trigger] plan@[k] == planned_refresh(
                    traces@,
                    unread,
                    info_changed@,
                    k,
                ),
    {
        let step = if unread && i == n - 1 {
            Refresh::FetchLive
        } else if !traces[i].svg_path.as_str().is_empty() && info_changed[i] {
            if traces[i].active {
                Refresh::FetchLive
            } else {
                Refresh::FetchFrozen(i)
            }
        } else {
            Refresh::Keep
        };
        plan.push(step);
    }
    plan
}

// Region: laws of traces -----------------------------------------------------------------

/// A trace's color repeats every `COLOR_COUNT` ids.
pub proof fn law_color_repeats(id: u8)
    requires
        id + COLOR_COUNT <= u8::MAX,
    ensures
        palette_color(((id + COLOR_COUNT) % (COLOR_COUNT as int)) as int) == palette_color(
            (id % COLOR_COUNT) as int,
        ),
{
}

/// The color groups form a cycle: from no group, or from any palette color, changing the
/// color `COLOR_COUNT + 1` times comes back to where it started, and passes through every
/// other group on the way.
pub proof fn law_color_groups_cycle(color_id: Option<u8>)
    requires
        color_id matches Some(c) ==> c < COLOR_COUNT,
    ensures
        next_color_id(next_color_id(next_color_id(next_color_id(next_color_id(next_color_id(
            next_color_id(next_color_id(next_color_id(next_color_id(color_id)))),
        )))))) == color_id,
        next_color_id(color_id) != color_id,
{
}

/// Two traces whose buttons get the same key have the same flags, id and color group, unless
/// one of them is in the group numbered 255, which shares its key with no group.
pub proof fn law_trace_key_injective<P>(a: Trace<P>, b: Trace<P>)
    requires
        a.color_id != Some(255u8),
        b.color_id != Some(255u8),
        trace_key(a) == trace_key(b),
    ensures
        a.active == b.active,
        a.visible == b.visible,
        a.draw_valleys == b.draw_valleys,
        a.draw_valleys_mean == b.draw_valleys_mean,
        a.id == b.id,
        a.color_id == b.color_id,
{
    let fa: int = (if a.active { 1int } else { 0int }) + (if a.visible { 2int } else { 0int })
        + (if a.draw_valleys { 4int } else { 0int }) + (if a.draw_valleys_mean { 8int } else { 0int });
    let fb: int = (if b.active { 1int } else { 0int }) + (if b.visible { 2int } else { 0int })
        + (if b.draw_valleys { 4int } else { 0int }) + (if b.draw_valleys_mean { 8int } else { 0int });
    let ca: int = match a.color_id { Some(c) => c as int, None => 255int };
    let cb: int = match b.color_id { Some(c) => c as int, None => 255int };
    let ia: int = a.id as int;
    let ib: int = b.id as int;
    assert(0 <= fa < 16 && 0 <= fb < 16);
    assert(fa + ia * 16 + ca * 4096 == fb + ib * 16 + cb * 4096);
    assert(ca == cb && ia == ib && fa == fb) by (nonlinear_arith)
        requires
            0 <= fa < 16,
            0 <= fb < 16,
            0 <= ia < 256,
            0 <= ib < 256,
            0 <= ca < 256,
            0 <= cb < 256,
            fa + ia * 16 + ca * 4096 == fb + ib * 16 + cb * 4096,
    ;
}

/// Deleting a trace keeps the ids equal to the positions, and keeps every other trace in order.
pub proof fn law_delete_keeps_positions<P>(before: Seq<Trace<P>>, id: int, after: Seq<Trace<P>>)
    requires
        0 <= id < before.len(),
        before.len() <= 256,
        after.len() == before.len() - 1,
        forall|i: int|
            0 <= i < after.len() ==> #[trigger] after[i] == (Trace {
                id: i as u8,
                ..before.remove(id)[i]
            }),
    ensures
        ids_are_positions(after),
        forall|i: int| 0 <= i < id ==> #[trigger] after[i].svg_path == before[i].svg_path,
        forall|i: int| id <= i < after.len() ==> #[trigger] after[i].svg_path == before[i + 1].svg_path,
{
}

/// Toggling the same display option of a trace twice gives the trace back.
pub proof fn law_toggle_twice<P>(t: Trace<P>, flag: TraceFlag)
    ensures
        ({
            let once = with_flag(t, flag, !flag_of(t, flag));
            with_flag(once, flag, !flag_of(once, flag)) == t
        }),
{
}

/// Freezing the last trace of a list whose ids are its positions keeps the ids equal to the
/// positions: the new active trace takes the next position.
pub proof fn law_freeze_last_keeps_positions<P>(
    before: Seq<Trace<P>>,
    frozen: Trace<P>,
    after: Seq<Trace<P>>,
)
    requires
        ids_are_positions(before),
        before.len() >= 1,
        before.len() < 256,
        frozen.id == before.last().id,
        after.len() == before.len() + 1,
        after.take(before.len() as int) == before.update(before.len() - 1, frozen),
        after.last().id == before.last().id + 1,
    ensures
        ids_are_positions(after),
{
    assert forall|i: int| 0 <= i < after.len() implies #[trigger] after[i].id == i by {
        if i < before.len() {
            assert(after[i] == after.take(before.len() as int)[i]);
        }
    }
}

/// The group of a trace with a color group is exactly the frozen traces of that color,
/// whether they are shown or hidden and whatever their markers: a position is listed iff its
/// trace is not active and has the same color group. A trace without a group has none.
pub proof fn law_group_is_frozen_traces_of_color<P>(traces: Seq<Trace<P>>, main_id: int)
    requires
        ids_are_positions(traces),
        0 <= main_id < traces.len(),
    ensures
        forall|p: int|
            0 <= p < traces.len() ==> (grouped_ids(traces, main_id).contains(p as u8) <==> (
            traces[main_id].color_id is Some && #[trigger] traces[p].color_id
                == traces[main_id].color_id && !traces[p].active)),
        traces[main_id].color_id is None ==> grouped_ids(traces, main_id).len() == 0,
{
    if let Some(g) = traces[main_id].color_id {
        let n = traces.len() as int;
        let ids = group_ids_upto(traces, g, n);
        lemma_group_ids_are_positions(traces, g, n);
        assert forall|p: int| 0 <= p < traces.len() implies (grouped_ids(traces, main_id).contains(
            p as u8,
        ) <==> (#[trigger] traces[p].color_id == traces[main_id].color_id
            && !traces[p].active)) by {
            if ids.contains(p as u8) {
                let r = choose|r: int| 0 <= r < ids.len() && ids[r] == p as u8;
                assert(in_group(traces[ids[r] as int], g));
            }
            if traces[p].color_id == Some(g) && !traces[p].active {
                let r = choose|r: int| 0 <= r < ids.len() && #[trigger] ids[r] == p;
                assert(ids[r] == p as u8);
            }
        }
    }
}

/// The active trace is always drawn in the active color, whatever color group it carries; a
/// frozen trace is drawn in the palette color of its group, or of its id without a group.
pub proof fn law_active_trace_in_active_color<P>(t: Trace<P>)
    ensures
        t.active ==> trace_color(t) == "#C8C093"@,
        !t.active ==> trace_color(t) == palette_color(
            ((match t.color_id {
                Some(c) => c,
                None => t.id,
            }) % COLOR_COUNT) as int,
        ),
{
    reveal_strlit("#C8C093");
}

/// Changing one display option of a trace sets that option and leaves every other field of
/// the trace as it was.
pub proof fn law_flag_changes_only_its_option<P>(t: Trace<P>, flag: TraceFlag, value: bool)
    ensures
        ({
            let u = with_flag(t, flag, value);
            &&& u.visible == if flag is Visible {
                value
            } else {
                t.visible
            }
            &&& u.draw_valleys == if flag is DrawValleys {
                value
            } else {
                t.draw_valleys
            }
            &&& u.draw_valleys_mean == if flag is DrawValleysMean {
                value
            } else {
                t.draw_valleys_mean
            }
            &&& u.id == t.id
            &&& u.color_id == t.color_id
            &&& u.active == t.active
            &&& u.svg_path == t.svg_path
            &&& u.freeze_time == t.freeze_time
            &&& u.data == t.data
        }),
{
}

} // verus!
