use rosav::spectrum_handler::time_series::{
    MatchMatrix, Sequence, TimeSeries, TimeSeriesGroup, TimeSeriesGroupPaths, TimedEntry,
    CLEAN_THRESH, MAX_TIME,
};
use rosav::spectrum_handler::{
    acquisitor_to_load, AcquisitorSimple, delete_frozen_spectrum, drawn_shadow_count, freeze_spectrum, frozen_spectrum_name,
    get_frozen_spectrum, update_shadow_spectra, TimeSeriesConfig,
};

#[test]
fn freezing_moves_the_last_spectrum() {
    let mut frozen = vec![1, 2];
    let mut last = Some(3);
    assert!(freeze_spectrum(&mut frozen, &mut last));
    assert_eq!(frozen, vec![1, 2, 3]);
    assert_eq!(last, None);
    assert!(!freeze_spectrum(&mut frozen, &mut last));
    assert_eq!(frozen, vec![1, 2, 3]);
}

#[test]
fn freeze_then_delete_last_restores() {
    let mut frozen = vec!["a", "b"];
    let mut last = Some("c");
    freeze_spectrum(&mut frozen, &mut last);
    let n = frozen.len();
    assert!(delete_frozen_spectrum(&mut frozen, n - 1));
    assert_eq!(frozen, vec!["a", "b"]);
}

#[test]
fn deleting_and_getting_frozen() {
    let mut frozen = vec![10, 20, 30];
    assert!(!delete_frozen_spectrum(&mut frozen, 3));
    assert_eq!(frozen, vec![10, 20, 30]);
    assert!(delete_frozen_spectrum(&mut frozen, 0));
    assert_eq!(frozen, vec![20, 30]);
    assert_eq!(get_frozen_spectrum(&frozen, 1), Some(&30));
    assert_eq!(get_frozen_spectrum(&frozen, 2), None);
}

#[test]
fn shadow_keeps_the_newest() {
    let mut shadow: Vec<u32> = Vec::new();
    for i in 0..10 {
        update_shadow_spectra(&mut shadow, Some(i), 3);
        assert!(shadow.len() <= 4);
        assert_eq!(*shadow.last().unwrap(), i);
    }
    assert_eq!(shadow, vec![6, 7, 8, 9]);
    update_shadow_spectra(&mut shadow, None, 3);
    assert_eq!(shadow, vec![6, 7, 8, 9]);
    update_shadow_spectra(&mut shadow, None, 1);
    assert_eq!(shadow, vec![8, 9]);
    update_shadow_spectra(&mut shadow, Some(10), 0);
    assert_eq!(shadow, vec![10]);
}

#[test]
fn drawn_shadows_leave_out_the_newest() {
    assert_eq!(drawn_shadow_count(0), 0);
    assert_eq!(drawn_shadow_count(1), 0);
    assert_eq!(drawn_shadow_count(5), 4);
}

#[test]
fn frozen_names() {
    assert_eq!(frozen_spectrum_name(0), "spectrum000");
    assert_eq!(frozen_spectrum_name(42), "spectrum042");
    assert_eq!(frozen_spectrum_name(1000), "spectrum1000");
}

#[test]
fn sequences_grow_and_die() {
    let mut s = Sequence::new(1.5f64);
    assert!(s.alive);
    assert_eq!(s.values, vec![1.5]);
    s.push(2.5);
    assert_eq!(s.values, vec![1.5, 2.5]);
    s.kill();
    assert!(!s.alive);
    assert_eq!(s.values, vec![1.5, 2.5]);
}

#[test]
fn match_matrix_basics() {
    let m = MatchMatrix::unmatched(3);
    assert_eq!(m.entries(), &vec![None, None, None]);
    let m = MatchMatrix::from_entries(vec![Some(2), None, Some(0)]);
    assert!(m.is_locked(2));
    assert!(m.is_locked(0));
    assert!(!m.is_locked(1));
}

#[test]
fn duplicates_are_the_shared_entries() {
    let m = MatchMatrix::from_entries(vec![Some(1), Some(0), Some(1), None, Some(1), Some(2)]);
    let d = m.find_duplicates();
    let pairs: Vec<(usize, usize)> = d.iter().map(|d| (d.matrix_index(), d.entry_index())).collect();
    assert_eq!(pairs, vec![(0, 1), (2, 1), (4, 1)]);
    let m = MatchMatrix::from_entries(vec![Some(3), Some(1), None, Some(0)]);
    assert!(m.find_duplicates().is_empty());
    assert!(MatchMatrix::from_entries(vec![]).find_duplicates().is_empty());
}

#[test]
fn locking_fixes_one_position() {
    let partial = MatchMatrix::from_entries(vec![Some(1), Some(1), Some(0)]);
    let lock = MatchMatrix::unmatched(3);
    let dups = partial.find_duplicates();
    assert_eq!(dups.len(), 2);
    let mut locks = Vec::new();
    for d in dups {
        locks.push(lock.lock(d));
    }
    assert_eq!(locks[0], MatchMatrix::from_entries(vec![Some(1), None, None]));
    assert_eq!(locks[1], MatchMatrix::from_entries(vec![None, Some(1), None]));
}

fn entry(value: f64, timestamp: i64) -> TimedEntry<f64> {
    TimedEntry { value, timestamp }
}

#[test]
fn batches_extend_and_start_sequences() {
    let mut ts: TimeSeries<f64> = TimeSeries::empty();
    assert!(ts.sequences.is_empty());
    ts.push_batch(&[entry(1.0, 10), entry(2.0, 10)], &MatchMatrix::unmatched(0));
    assert_eq!(ts.sequences.len(), 2);
    assert_eq!(ts.newest_time(), 10);
    assert_eq!(ts.alive_indices(), vec![0, 1]);

    // the first sequence takes the second entry, the second sequence gets nothing and dies,
    // and the first entry starts a new sequence
    ts.push_batch(&[entry(5.0, 20), entry(1.1, 20)], &MatchMatrix::from_entries(vec![Some(1), None]));
    assert_eq!(ts.sequences.len(), 3);
    let pairs = |i: usize| -> Vec<(f64, i64)> {
        ts.sequences[i].values.iter().map(|e| (e.value, e.timestamp)).collect()
    };
    assert_eq!(pairs(0), vec![(1.0, 10), (1.1, 20)]);
    assert!(ts.sequences[0].alive);
    assert_eq!(pairs(1), vec![(2.0, 10)]);
    assert!(!ts.sequences[1].alive);
    assert_eq!(pairs(2), vec![(5.0, 20)]);
    assert_eq!(ts.alive_indices(), vec![0, 2]);
    assert_eq!(ts.newest_time(), 20);
}

#[test]
fn dead_sequences_are_skipped_by_the_matrix() {
    let mut ts: TimeSeries<u32> = TimeSeries::empty();
    ts.push_batch(&[TimedEntry { value: 1, timestamp: 0 }, TimedEntry { value: 2, timestamp: 0 }], &MatchMatrix::unmatched(0));
    ts.push_batch(&[TimedEntry { value: 3, timestamp: 1 }], &MatchMatrix::from_entries(vec![None, Some(0)]));
    // position 0 of the next matrix is the second sequence: the first one died
    ts.push_batch(&[TimedEntry { value: 4, timestamp: 2 }], &MatchMatrix::from_entries(vec![Some(0)]));
    assert_eq!(ts.sequences.len(), 2);
    let values: Vec<Vec<u32>> = ts.sequences.iter().map(|s| s.values.iter().map(|e| e.value).collect()).collect();
    assert_eq!(values, vec![vec![1], vec![2, 3, 4]]);
}

#[test]
fn old_entries_are_dropped_after_enough_entries() {
    assert_eq!(MAX_TIME, 600_000);
    assert_eq!(CLEAN_THRESH, 1000);
    let mut ts: TimeSeries<u32> = TimeSeries::empty();
    let old: Vec<TimedEntry<u32>> = (0..999).map(|i| TimedEntry { value: i, timestamp: 0 }).collect();
    ts.push_batch(&old, &MatchMatrix::unmatched(0));
    assert_eq!(ts.sequences.len(), 999);
    ts.push_batch(&[TimedEntry::new_now(7)], &MatchMatrix::unmatched(0));
    // the cleanup ran: only the entry taken now is recent
    assert_eq!(ts.sequences.len(), 1);
    assert_eq!(ts.sequences[0].values[0].value, 7);
}

#[test]
fn cleanup_keeps_only_recent_entries() {
    let mut ts: TimeSeries<u32> = TimeSeries::empty();
    let mut batch = Vec::new();
    for i in 0..1000u32 {
        // entries stamped far in the future are recent at any present moment
        batch.push(TimedEntry { value: i, timestamp: if i % 2 == 0 { i64::MAX / 2 } else { 0 } });
    }
    ts.push_batch(&batch, &MatchMatrix::unmatched(0));
    assert_eq!(ts.sequences.len(), 500);
    assert!(ts.sequences.iter().all(|s| s.values.len() == 1 && s.values[0].value % 2 == 0));
}

#[test]
fn cleanup_waits_for_enough_entries() {
    let mut ts: TimeSeries<u32> = TimeSeries::empty();
    let old: Vec<TimedEntry<u32>> = (0..10).map(|i| TimedEntry { value: i, timestamp: 0 }).collect();
    ts.push_batch(&old, &MatchMatrix::unmatched(0));
    ts.clean_old_at(i64::MAX);
    assert_eq!(ts.sequences.len(), 10);
}

#[test]
fn timed_entries_take_the_current_time() {
    let before = std::time::SystemTime::now()
        .duration_since(std::time::UNIX_EPOCH)
        .unwrap()
        .as_millis() as i64;
    let e = TimedEntry::new_now(3u8);
    assert_eq!(e.value, 3);
    assert!(e.timestamp >= before);
}

#[test]
fn groups_start_empty() {
    let g: TimeSeriesGroup<f64> = TimeSeriesGroup::empty();
    assert!(g.valleys.sequences.is_empty());
    assert!(g.valley_means.sequences.is_empty());
    assert!(g.peaks.sequences.is_empty());
    assert!(g.peak_means.sequences.is_empty());
    let p = TimeSeriesGroupPaths::empty();
    assert!(p.valleys.is_empty() && p.valley_means.is_empty() && p.peaks.is_empty() && p.peak_means.is_empty());
}

#[test]
fn group_paths_follow_the_configuration() {
    let config = TimeSeriesConfig {
        draw_valleys: true,
        draw_valley_means: false,
        draw_peaks: false,
        draw_peak_means: true,
        total_time: 300,
    };
    let p = TimeSeriesGroupPaths::from_config(
        &config,
        vec!["v".to_string()],
        vec!["vm".to_string()],
        vec!["p".to_string()],
        vec!["pm".to_string(), "pm2".to_string()],
    );
    assert_eq!(p.valleys, vec!["v".to_string()]);
    assert!(p.valley_means.is_empty());
    assert!(p.peaks.is_empty());
    assert_eq!(p.peak_means, vec!["pm".to_string(), "pm2".to_string()]);
}

#[test]
fn batches_are_checked_before_they_are_pushed() {
    let mut ts: TimeSeries<u32> = TimeSeries::empty();
    let batch = [TimedEntry { value: 1, timestamp: 0 }, TimedEntry { value: 2, timestamp: 0 }];
    assert!(ts.accepts_batch(&batch, &MatchMatrix::unmatched(0)));
    // no alive sequence yet: a matrix with one position is refused
    assert!(!ts.accepts_batch(&batch, &MatchMatrix::unmatched(1)));
    ts.push_batch(&batch, &MatchMatrix::unmatched(0));
    assert!(ts.accepts_batch(&batch, &MatchMatrix::from_entries(vec![Some(1), Some(0)])));
    // an entry outside the batch is refused
    assert!(!ts.accepts_batch(&batch, &MatchMatrix::from_entries(vec![Some(2), None])));
    assert!(!ts.accepts_batch(&batch, &MatchMatrix::unmatched(3)));
}

#[test]
fn sequences_are_never_empty() {
    let mut ts: TimeSeries<u32> = TimeSeries::empty();
    let batches: Vec<(Vec<u32>, Vec<Option<usize>>)> = vec![
        (vec![1, 2, 3], vec![]),
        (vec![4], vec![None, Some(0), None]),
        (vec![], vec![None]),
        (vec![5, 6], vec![]),
    ];
    for (values, matrix) in batches {
        let batch: Vec<TimedEntry<u32>> = values.into_iter().map(|v| TimedEntry { value: v, timestamp: 0 }).collect();
        let m = MatchMatrix::from_entries(matrix);
        assert!(ts.accepts_batch(&batch, &m));
        ts.push_batch(&batch, &m);
        assert!(ts.sequences.iter().all(|s| !s.values.is_empty()));
    }
    assert_eq!(ts.sequences.len(), 5);
}

#[test]
fn batches_with_a_shared_entry_are_refused() {
    let mut ts: TimeSeries<u32> = TimeSeries::empty();
    let batch = [TimedEntry { value: 1, timestamp: 0 }, TimedEntry { value: 2, timestamp: 0 }];
    ts.push_batch(&batch, &MatchMatrix::unmatched(0));
    assert!(!ts.accepts_batch(&batch, &MatchMatrix::from_entries(vec![Some(0), Some(0)])));
    assert!(ts.accepts_batch(&batch, &MatchMatrix::from_entries(vec![Some(0), None])));
}

#[test]
fn each_value_lands_in_one_sequence() {
    let mut ts: TimeSeries<u32> = TimeSeries::empty();
    let first = [TimedEntry { value: 10, timestamp: 0 }, TimedEntry { value: 20, timestamp: 0 }];
    ts.push_batch(&first, &MatchMatrix::unmatched(0));
    let second = [
        TimedEntry { value: 21, timestamp: 1 },
        TimedEntry { value: 30, timestamp: 1 },
        TimedEntry { value: 11, timestamp: 1 },
    ];
    let m = MatchMatrix::from_entries(vec![Some(2), Some(0)]);
    assert!(ts.accepts_batch(&second, &m));
    ts.push_batch(&second, &m);
    let all: Vec<u32> = ts.sequences.iter().flat_map(|s| s.values.iter().map(|e| e.value)).collect();
    for v in [21, 30, 11] {
        assert_eq!(all.iter().filter(|&&x| x == v).count(), 1);
    }
    let values: Vec<Vec<u32>> = ts.sequences.iter().map(|s| s.values.iter().map(|e| e.value).collect()).collect();
    assert_eq!(values, vec![vec![10, 11], vec![20, 21], vec![30]]);
}

#[test]
fn acquisitor_is_loaded_only_when_its_kind_changes() {
    assert_eq!(acquisitor_to_load(AcquisitorSimple::Imon, AcquisitorSimple::Imon), None);
    assert_eq!(
        acquisitor_to_load(AcquisitorSimple::Imon, AcquisitorSimple::FileReader),
        Some(AcquisitorSimple::FileReader)
    );
}
