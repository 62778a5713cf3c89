use rosav::trace::{
    delete_group, delete_trace, first_trace, freeze_trace, get_grouped_trace_ids, new_trace,
    refresh_plan, Refresh,
    set_all_traces_flag, toggle_group_flag, toggle_trace_flag, trace_id_to_color,
    trace_id_to_name, trace_id_to_style, trace_info_identifier, Trace, TraceFlag, COLOR_COUNT,
};

fn traces_with_paths(n: usize) -> Vec<Trace<u32>> {
    let mut traces = vec![first_trace(0u32)];
    for i in 1..n {
        let t = new_trace(&traces[i - 1], i as u32);
        traces[i - 1].active = false;
        traces[i - 1].svg_path = "M 0 0".to_string();
        traces.push(t);
    }
    traces
}

#[test]
fn trace_names_are_letters_then_numbers() {
    assert_eq!(trace_id_to_name(0), "A");
    assert_eq!(trace_id_to_name(1), "B");
    assert_eq!(trace_id_to_name(25), "Z");
    assert_eq!(trace_id_to_name(26), "26");
    assert_eq!(trace_id_to_name(255), "255");
}

#[test]
fn trace_colors_follow_the_palette() {
    let palette = [
        "#ff9e3b", "#7e9cd8", "#e82424", "#957fb8", "#7aa89f", "#d27e99", "#76946a", "#717c7c",
        "#ffa066",
    ];
    for (i, color) in palette.iter().enumerate() {
        assert_eq!(trace_id_to_color(i as u8), *color);
    }
}

#[test]
fn trace_colors_repeat_every_palette_length() {
    for id in 0..=(255 - COLOR_COUNT) {
        assert_eq!(trace_id_to_color(id), trace_id_to_color(id + COLOR_COUNT));
    }
    assert_eq!(trace_id_to_color(9), "#ff9e3b");
    assert_eq!(trace_id_to_color(255), trace_id_to_color(255 % 9));
}

#[test]
fn trace_style_paints_the_name() {
    assert_eq!(trace_id_to_style(1), "background-color: #7e9cd8;");
    assert_eq!(trace_id_to_style(10), "background-color: #7e9cd8;");
}

#[test]
fn first_and_new_traces() {
    let first = first_trace(5u32);
    assert_eq!(first.id, 0);
    assert!(first.active && first.visible && first.draw_valleys && first.draw_valleys_mean);
    assert_eq!(first.color_id, None);
    assert_eq!(first.svg_path, "");
    assert_eq!(first.freeze_time, None);
    let mut last = first.clone();
    last.visible = false;
    last.color_id = Some(3);
    let next = new_trace(&last, 6u32);
    assert_eq!(next.id, 1);
    assert!(!next.visible);
    assert_eq!(next.color_id, Some(3));
    assert!(next.active);
    assert_eq!(next.data, 6);
}

#[test]
fn trace_colors_and_styles() {
    let mut t = first_trace(());
    assert_eq!(t.get_color(), "#C8C093");
    assert_eq!(t.name_style(), "background-color: #C8C093;");
    assert_eq!(t.group_style(), "");
    t.active = false;
    t.id = 2;
    assert_eq!(t.get_color(), "#e82424");
    t.color_id = Some(4);
    assert_eq!(t.get_color(), "#7aa89f");
    assert_eq!(t.group_style(), "background-color: #7aa89f; color: #54546D;");
    t.reset_color();
    assert_eq!(t.color_id, None);
}

#[test]
fn color_groups_cycle() {
    let mut t = first_trace(());
    let mut seen = vec![t.color_id];
    for _ in 0..COLOR_COUNT {
        t.change_color();
        seen.push(t.color_id);
    }
    assert_eq!(seen, vec![None, Some(0), Some(1), Some(2), Some(3), Some(4), Some(5), Some(6), Some(7), Some(8)]);
    t.change_color();
    assert_eq!(t.color_id, None);
}

#[test]
fn trace_identifier_packs_fields() {
    let mut t = first_trace(());
    assert_eq!(trace_info_identifier(&t), 1 + 2 + 4 + 8 + 255 * 4096);
    t.active = false;
    t.visible = false;
    t.id = 3;
    t.color_id = Some(2);
    assert_eq!(trace_info_identifier(&t), 4 + 8 + 3 * 16 + 2 * 4096);
}

#[test]
fn trace_identifier_tells_traces_apart() {
    let mut a = first_trace(());
    let mut b = first_trace(());
    assert_eq!(trace_info_identifier(&a), trace_info_identifier(&b));
    b.id = 1;
    assert_ne!(trace_info_identifier(&a), trace_info_identifier(&b));
    b.id = 0;
    b.color_id = Some(0);
    assert_ne!(trace_info_identifier(&a), trace_info_identifier(&b));
    a.color_id = Some(255);
    b.color_id = None;
    assert_eq!(trace_info_identifier(&a), trace_info_identifier(&b));
}

#[test]
fn freeze_trace_freezes_and_starts_a_new_one() {
    let mut traces = vec![first_trace(0u32)];
    assert!(!freeze_trace(&mut traces, 0, "(10:00)".to_string(), 1));
    assert_eq!(traces.len(), 1);
    traces[0].svg_path = "M 1 1".to_string();
    assert!(freeze_trace(&mut traces, 0, "(10:00)".to_string(), 1));
    assert_eq!(traces.len(), 2);
    assert!(!traces[0].active);
    assert_eq!(traces[0].freeze_time.as_deref(), Some("(10:00)"));
    assert_eq!(traces[1].id, 1);
    assert!(traces[1].active);
    assert_eq!(traces[1].svg_path, "");
    assert_eq!(traces[1].data, 1);
}

#[test]
fn delete_trace_renumbers() {
    let mut traces = traces_with_paths(4);
    delete_trace(&mut traces, 1);
    assert_eq!(traces.len(), 3);
    let ids: Vec<u8> = traces.iter().map(|t| t.id).collect();
    assert_eq!(ids, vec![0, 1, 2]);
    let data: Vec<u32> = traces.iter().map(|t| t.data).collect();
    assert_eq!(data, vec![0, 2, 3]);
}

#[test]
fn grouped_ids_are_the_frozen_traces_of_the_group() {
    let mut traces = traces_with_paths(5);
    traces[0].color_id = Some(1);
    traces[2].color_id = Some(1);
    traces[3].color_id = Some(2);
    traces[4].color_id = Some(1); // active: not part of the group
    assert_eq!(get_grouped_trace_ids(0, &traces), vec![0, 2]);
    assert_eq!(get_grouped_trace_ids(4, &traces), vec![0, 2]);
    assert_eq!(get_grouped_trace_ids(3, &traces), vec![3]);
    assert_eq!(get_grouped_trace_ids(1, &traces), Vec::<u8>::new());
}

#[test]
fn toggling_flags() {
    let mut traces = traces_with_paths(3);
    toggle_trace_flag(&mut traces, 1, TraceFlag::Visible);
    assert!(!traces[1].visible);
    assert!(traces[0].visible && traces[2].visible);
    toggle_trace_flag(&mut traces, 1, TraceFlag::Visible);
    assert!(traces[1].visible);
    set_all_traces_flag(&mut traces, TraceFlag::DrawValleys, false);
    assert!(traces.iter().all(|t| !t.draw_valleys));
    set_all_traces_flag(&mut traces, TraceFlag::DrawValleysMean, false);
    assert!(traces.iter().all(|t| !t.draw_valleys_mean));
}

#[test]
fn toggling_a_group_flag() {
    let mut traces = traces_with_paths(4);
    traces[0].color_id = Some(0);
    traces[2].color_id = Some(0);
    traces[2].visible = false;
    toggle_group_flag(&mut traces, 0, TraceFlag::Visible);
    assert!(!traces[0].visible);
    assert!(!traces[2].visible);
    assert!(traces[1].visible);
    assert!(traces[3].visible);
    toggle_group_flag(&mut traces, 1, TraceFlag::Visible);
    assert!(traces[1].visible);
}

#[test]
fn deleting_a_group() {
    let mut traces = traces_with_paths(5);
    traces[1].color_id = Some(6);
    traces[3].color_id = Some(6);
    let deleted = delete_group(&mut traces, 1);
    assert_eq!(deleted, vec![3, 1]);
    assert_eq!(traces.len(), 3);
    let ids: Vec<u8> = traces.iter().map(|t| t.id).collect();
    assert_eq!(ids, vec![0, 1, 2]);
    let data: Vec<u32> = traces.iter().map(|t| t.data).collect();
    assert_eq!(data, vec![0, 2, 4]);
    let none = delete_group(&mut traces, 0);
    assert!(none.is_empty());
    assert_eq!(traces.len(), 3);
}

#[test]
fn refresh_plan_per_trace() {
    let mut traces = traces_with_paths(4);
    traces[3].svg_path = "M 2 2".to_string();
    traces[1].svg_path = String::new();
    let plan = refresh_plan(&traces, false, &vec![true, true, false, true]);
    assert_eq!(plan, vec![Refresh::FetchFrozen(0), Refresh::Keep, Refresh::Keep, Refresh::FetchLive]);
    let plan = refresh_plan(&traces, true, &vec![false, false, false, false]);
    assert_eq!(plan, vec![Refresh::Keep, Refresh::Keep, Refresh::Keep, Refresh::FetchLive]);
    let empty: Vec<Trace<u32>> = Vec::new();
    assert!(refresh_plan(&empty, true, &vec![]).is_empty());
}
