use video_splits::widgets::seek_bar::seek_bar::MarkPlacement;
use video_splits::widgets::video_player_widget::seek_bar::SeekBar as PlayerSeekBar;
use video_splits::widgets::split_panel::splits::{Segment, VideoSegment};
use video_splits::widgets::split_panel::splittable::{player_key_text, SplitTable};
use video_splits::widgets::split_panel::timeentry::TimeEntry;

fn times(t: &SplitTable, player: &str) -> Vec<u64> {
    t.get_split_table_liststore().iter().map(|r| r.get_time(player)).collect()
}

fn durations(t: &SplitTable, player: &str) -> Vec<Option<u64>> {
    t.get_split_table_liststore().iter().map(|r| r.get_duration(player)).collect()
}

fn table_with_rows(rows: u32) -> SplitTable {
    let mut t = SplitTable::new();
    t.add_start_time_offset_row();
    for i in 0..rows {
        t.append_empty_row(100 + i);
    }
    t
}

#[test]
fn new_table_is_empty() {
    let t = SplitTable::new();
    assert!(t.get_split_table_liststore().is_empty());
    assert!(t.get_start_time_offset_liststore().is_empty());
}

#[test]
fn new_rows_hold_empty_segments() {
    let mut t = SplitTable::new();
    t.set_max_number_of_video_players(2);
    t.append_empty_row(5);
    t.insert_empty_row(0, 6);
    let rows = t.get_split_table_liststore();
    assert_eq!(rows.len(), 2);
    assert_eq!(rows[0].get_segment_id(), "6");
    assert_eq!(rows[1].get_segment_id(), "5");
    assert_eq!(rows[0].get_name(), "Segment Name");
    assert_eq!(rows[0].get_segment_count(), 2);
    let mut keys = rows[0].get_keys();
    keys.sort();
    assert_eq!(keys, vec!["0".to_string(), "1".to_string()]);
    assert_eq!(rows[0].get_time("1"), u64::MAX);
    assert_eq!(rows[0].get_duration("1"), None);
    assert_eq!(rows[0].get_offset("1"), 0);
}

#[test]
fn player_keys_are_decimal() {
    assert_eq!(player_key_text(0), "0");
    assert_eq!(player_key_text(407), "407");
    assert_eq!(player_key_text(u32::MAX), "4294967295");
}

#[test]
fn offset_rows_start_at_zero() {
    let mut t = SplitTable::new();
    let e = t.add_start_time_offset_row();
    assert_eq!(e, TimeEntry::new(0));
    assert_eq!(t.get_start_time_offset_liststore().len(), 1);
}

#[test]
fn split_without_selection_fails() {
    let mut t = table_with_rows(2);
    assert_eq!(t.set_split(0, 10, 2), Err("Segment not selected".to_string()));
    assert_eq!(t.set_split(0, 10, u32::MAX), Err("Segment not selected".to_string()));
    assert_eq!(times(&t, "0"), vec![u64::MAX, u64::MAX]);
}

#[test]
fn splits_in_order_stay() {
    let mut t = table_with_rows(3);
    assert_eq!(t.set_split(0, 10, 0), Ok(()));
    assert_eq!(t.set_split(0, 20, 1), Ok(()));
    assert_eq!(t.set_split(0, 30, 2), Ok(()));
    assert_eq!(times(&t, "0"), vec![10, 20, 30]);
}

#[test]
fn earlier_split_pulls_back_later_rows_before_it() {
    let mut t = table_with_rows(3);
    t.set_split(0, 10, 0).unwrap();
    t.set_split(0, 20, 1).unwrap();
    t.set_split(0, 30, 2).unwrap();
    t.set_split(0, 5, 1).unwrap();
    assert_eq!(times(&t, "0"), vec![5, 5, 30]);
    let rows = t.get_split_table_liststore();
    assert_eq!(rows[0].get_time_entry_copy("0").get_old_time(), 10);
    assert_eq!(rows[1].get_time_entry_copy("0").get_old_time(), 20);
}

#[test]
fn later_split_pushes_following_rows() {
    let mut t = table_with_rows(3);
    t.set_split(0, 10, 0).unwrap();
    t.set_split(0, 20, 1).unwrap();
    t.set_split(0, 30, 2).unwrap();
    t.set_split(0, 40, 1).unwrap();
    assert_eq!(times(&t, "0"), vec![10, 40, 40]);
}

#[test]
fn unset_rows_are_skipped_when_correcting() {
    let mut t = table_with_rows(4);
    t.set_split(0, 10, 0).unwrap();
    t.set_split(0, 30, 3).unwrap();
    t.set_split(0, 50, 0).unwrap();
    assert_eq!(times(&t, "0"), vec![50, u64::MAX, u64::MAX, 50]);
}

#[test]
fn previous_time_skips_unset_rows() {
    let mut t = table_with_rows(4);
    assert_eq!(t.get_previous_time(0, 4), None);
    t.set_split(0, 10, 0).unwrap();
    assert_eq!(t.get_previous_time(0, 0), None);
    assert_eq!(t.get_previous_time(0, 1), Some(10));
    assert_eq!(t.get_previous_time(0, 4), Some(10));
    t.set_split(0, 25, 2).unwrap();
    assert_eq!(t.get_previous_time(0, 2), Some(10));
    assert_eq!(t.get_previous_time(0, 3), Some(25));
}

#[test]
fn start_offset_sets_first_duration_and_all_offsets() {
    let mut t = table_with_rows(2);
    t.set_split(0, 5, 0).unwrap();
    assert_eq!(t.set_start_time_offset(0, 2), Ok(()));
    assert_eq!(t.get_start_time_offset_liststore()[0].get_time(), 2);
    assert_eq!(t.get_start_time_offset_liststore()[0].get_old_time(), 0);
    assert_eq!(durations(&t, "0"), vec![Some(5), None]);
    let rows = t.get_split_table_liststore();
    assert_eq!(rows[0].get_offset("0"), 2);
    assert_eq!(rows[1].get_offset("0"), 2);
}

#[test]
fn durations_measure_from_previous_tracked_split() {
    let mut t = table_with_rows(3);
    t.set_split(0, 10, 0).unwrap();
    t.set_split(0, 40, 1).unwrap();
    t.set_split(0, 45, 2).unwrap();
    t.set_start_time_offset(0, 2).unwrap();
    t.update_durations(0, 0);
    assert_eq!(durations(&t, "0"), vec![Some(8), None, None]);
    // A duration of 7 for the last row puts its split 7 after the one before.
    t.apply_duration_entry(0, 2, 7);
    assert_eq!(times(&t, "0"), vec![10, 40, 47]);
    // The row in between has no duration, so the last one measures from the first.
    assert_eq!(durations(&t, "0"), vec![Some(8), None, Some(37)]);
}

#[test]
fn duration_entry_without_previous_split_starts_at_zero() {
    let mut t = table_with_rows(2);
    t.apply_duration_entry(0, 0, 12);
    assert_eq!(times(&t, "0"), vec![12, u64::MAX]);
    assert_eq!(durations(&t, "0"), vec![Some(12), None]);
}

#[test]
fn time_entry_corrects_and_refreshes_durations() {
    let mut t = table_with_rows(3);
    t.apply_duration_entry(0, 0, 10);
    t.apply_duration_entry(0, 1, 10);
    t.apply_duration_entry(0, 2, 10);
    assert_eq!(times(&t, "0"), vec![10, 20, 30]);
    assert_eq!(durations(&t, "0"), vec![Some(10), Some(10), Some(10)]);
    t.apply_time_entry(0, 0, 25);
    assert_eq!(times(&t, "0"), vec![25, 25, 30]);
    assert_eq!(durations(&t, "0"), vec![Some(25), Some(0), Some(5)]);
}

#[test]
fn offset_entry_reaches_every_row() {
    let mut t = table_with_rows(3);
    t.apply_start_time_offset_entry(0, 9);
    assert_eq!(t.get_start_time_offset_liststore()[0].get_time(), 9);
    for r in t.get_split_table_liststore() {
        assert_eq!(r.get_offset("0"), 9);
    }
}

#[test]
fn players_are_corrected_separately() {
    let mut t = SplitTable::new();
    t.set_max_number_of_video_players(2);
    t.add_start_time_offset_row();
    t.add_start_time_offset_row();
    t.append_empty_row(1);
    t.append_empty_row(2);
    t.set_split(0, 10, 0).unwrap();
    t.set_split(1, 50, 1).unwrap();
    t.set_split(0, 90, 1).unwrap();
    t.set_split(1, 20, 0).unwrap();
    assert_eq!(times(&t, "0"), vec![10, 90]);
    assert_eq!(times(&t, "1"), vec![20, 50]);
}

#[test]
fn split_times_stay_ordered() {
    let mut t = table_with_rows(6);
    let edits = [(3u32, 40u64), (0, 70), (5, 10), (2, 55), (4, 5), (1, 100), (5, 60)];
    for (row, time) in edits {
        t.set_split(0, time, row).unwrap();
        let set: Vec<u64> = times(&t, "0").into_iter().filter(|x| *x != u64::MAX).collect();
        assert!(set.windows(2).all(|w| w[0] <= w[1]), "{set:?}");
    }
}

#[test]
fn video_segment_accessors() {
    let mut v = VideoSegment::new("Intro", 42);
    assert_eq!(v.get_name(), "Intro");
    assert_eq!(v.get_segment_id(), "42");
    assert_eq!(v.get_segment_count(), 0);
    let s = v.add_empty_segment("7");
    assert_eq!(s, Segment { time: TimeEntry::new(u64::MAX), duration: None, offset: TimeEntry::new(0) });
    v.set_time("7", 1_000);
    v.set_duration("7", 400);
    v.set_offset("7", 600);
    assert_eq!(v.get_time("7"), 1_000);
    assert_eq!(v.get_time_entry_copy("7").get_old_time(), u64::MAX);
    assert_eq!(v.get_duration("7"), Some(400));
    assert_eq!(v.get_offset("7"), 600);
    assert_eq!(v.get_segment("8"), None);
    v.set_name("Boss".to_string());
    assert_eq!(v.get_name(), "Boss");
    v.add_empty_segment("8");
    assert_eq!(v.get_segment_count(), 2);
    v.remove_segment("7");
    assert_eq!(v.get_keys(), vec!["8".to_string()]);
    v.remove_segment("missing");
    assert_eq!(v.get_segment_count(), 1);
}

#[test]
fn time_entry_remembers_previous_time() {
    let mut e = TimeEntry::new(5);
    assert_eq!(e.get_time(), 5);
    assert_eq!(e.get_old_time(), 0);
    e.set_time(9);
    assert_eq!(e.get_time(), 9);
    assert_eq!(e.get_old_time(), 5);
}

#[test]
fn columns_are_added_and_removed_in_every_row() {
    let mut t = table_with_rows(3);
    assert!(t.has_column(0));
    assert!(!t.has_column(1));
    t.add_empty_column(1);
    assert!(t.has_column(1));
    for r in t.get_split_table_liststore() {
        assert_eq!(r.get_segment_count(), 2);
        assert_eq!(r.get_time("1"), u64::MAX);
        assert_eq!(r.get_duration("1"), None);
    }
    t.set_split(1, 10, 0).unwrap();
    t.add_empty_column(1);
    assert_eq!(times(&t, "1"), vec![u64::MAX, u64::MAX, u64::MAX]);
    t.remove_column(0);
    assert!(!t.has_column(0));
    assert!(t.has_column(1));
    for r in t.get_split_table_liststore() {
        assert_eq!(r.get_keys(), vec!["1".to_string()]);
    }
}

#[test]
fn empty_table_has_every_column() {
    let t = SplitTable::new();
    assert!(t.has_column(5));
}

#[test]
fn split_fits_checks_row_and_player() {
    let t = table_with_rows(2);
    assert!(t.split_fits(0, 0, 10));
    assert!(t.split_fits(0, 1, 10));
    assert!(!t.split_fits(0, 2, 10));
    assert!(!t.split_fits(3, 0, 10));
}

#[test]
fn split_before_the_offset_does_not_fit_once_durations_are_tracked() {
    let mut t = table_with_rows(2);
    t.set_split(0, 50, 0).unwrap();
    t.set_start_time_offset(0, 20).unwrap();
    // Row 0 now has a duration measured from the offset 20.
    assert!(t.split_fits(0, 0, 20));
    assert!(t.split_fits(0, 0, 30));
    assert!(!t.split_fits(0, 0, 19));
    // A split in row 1 earlier than 50 pulls row 0 back to it.
    assert!(t.split_fits(0, 1, 25));
    assert!(!t.split_fits(0, 1, 10));
}

#[test]
fn duration_fits_checks_the_sum_and_the_corrections() {
    let mut t = table_with_rows(2);
    assert!(t.duration_fits(0, 0, 12));
    assert!(!t.duration_fits(0, 2, 12));
    assert!(!t.duration_fits(4, 0, 12));
    t.set_split(0, 10, 0).unwrap();
    assert!(t.duration_fits(0, 1, 5));
    assert!(!t.duration_fits(0, 1, u64::MAX));
    t.apply_duration_entry(0, 1, 5);
    assert_eq!(times(&t, "0"), vec![10, 15]);
}

#[test]
fn rows_can_be_renamed() {
    let mut t = table_with_rows(2);
    t.set_row_name(1, "Boss fight".to_string());
    let rows = t.get_split_table_liststore();
    assert_eq!(rows[0].get_name(), "Segment Name");
    assert_eq!(rows[1].get_name(), "Boss fight");
}

#[test]
fn rows_and_columns_connect_to_player_seek_bars() {
    let mut t = table_with_rows(2);
    t.set_split(0, 40, 1).unwrap();
    let mut bar = PlayerSeekBar::new(100, false);
    t.connect_column_to_seekbar(0, &mut bar);
    let mut marks = bar.update_mark_positions();
    marks.sort_by(|a, b| a.0.cmp(&b.0));
    assert_eq!(
        marks,
        vec![
            ("video-0, seg-0".to_string(), MarkPlacement::Hidden),
            ("video-0, seg-1".to_string(), MarkPlacement::Visible { time: 40 }),
        ]
    );
    t.insert_empty_row(0, 9);
    t.set_split(0, 10, 0).unwrap();
    t.connect_row_to_seekbar(0, 0, &mut bar);
    let marks = bar.update_mark_positions();
    assert!(marks.contains(&("video-0, row-2".to_string(), MarkPlacement::Visible { time: 10 })));
    assert_eq!(marks.len(), 3);
}

#[test]
fn removing_a_new_column_restores_the_rows() {
    let mut t = table_with_rows(2);
    t.set_split(0, 30, 1).unwrap();
    let before: Vec<(String, Vec<String>, u64)> = t
        .get_split_table_liststore()
        .iter()
        .map(|r| (r.get_name(), r.get_keys(), r.get_time("0")))
        .collect();
    t.add_empty_column(5);
    t.remove_column(5);
    let after: Vec<(String, Vec<String>, u64)> = t
        .get_split_table_liststore()
        .iter()
        .map(|r| (r.get_name(), r.get_keys(), r.get_time("0")))
        .collect();
    assert_eq!(before, after);
}

#[test]
fn player_marks_follow_split_edits_after_sync() {
    let mut t = table_with_rows(2);
    let mut bar = PlayerSeekBar::new(100, false);
    t.connect_column_to_seekbar(0, &mut bar);
    t.set_split(0, 40, 1).unwrap();
    let before = bar.update_mark_positions();
    assert!(before.contains(&("video-0, seg-1".to_string(), MarkPlacement::Hidden)));
    bar.sync_times(&t);
    let after = bar.update_mark_positions();
    assert!(after.contains(&("video-0, seg-1".to_string(), MarkPlacement::Visible { time: 40 })));
    assert!(after.contains(&("video-0, seg-0".to_string(), MarkPlacement::Hidden)));
    assert_eq!(bar.get_timeline_length(), 100);
}
