use video_splits::widgets::split_panel::timeentry::TimeEntry;
use video_splits::widgets::seek_bar::shared_seek_bar::{
    clamp_end_for_player, progress_step, shared_mark_id, start_time_for_syncing, ProgressCommand, ProgressStep,
    SharedSeekBar,
};
use video_splits::widgets::seek_bar::seek_bar::MarkPlacement;
use video_splits::widgets::split_panel::splits::VideoSegment;
use video_splits::widgets::split_panel::splittable::SplitTable;
use video_splits::widgets::sync::sync_manager::{
    get_longest_pipeline, playback_base_time, seek_base_time, SyncEvent, SyncManager,
};

#[test]
fn sync_manager_tracks_pipelines_by_id() {
    let mut m: SyncManager<u32> = SyncManager::new();
    assert_eq!(m.pipeline_count(), 0);
    assert!(!m.is_synced());
    m.add_pipeline("0", 10);
    m.add_pipeline("1", 11);
    m.add_pipeline("0", 12);
    assert_eq!(m.pipeline_count(), 2);
    let (id, p) = m.pipeline_at(0);
    assert_eq!(id, "0");
    assert_eq!(*p, 12);
    m.remove_pipeline("0");
    assert_eq!(m.pipeline_count(), 1);
    let (id, p) = m.pipeline_at(0);
    assert_eq!(id, "1");
    assert_eq!(*p, 11);
    m.remove_pipeline("7");
    assert_eq!(m.pipeline_count(), 1);
}

#[test]
fn base_times() {
    assert_eq!(playback_base_time(1_000, 250), 1_250);
    assert_eq!(seek_base_time(1_000, 250), 750);
}

#[test]
fn longest_pipeline_is_first_of_the_longest() {
    assert_eq!(get_longest_pipeline(&vec![]), None);
    assert_eq!(get_longest_pipeline(&vec![(10, 2), (20, 5), (17, 2), (9, 0)]), Some((1, 15)));
    assert_eq!(get_longest_pipeline(&vec![(5, 5)]), Some((0, 0)));
}

#[test]
fn mark_id_format() {
    assert_eq!(shared_mark_id("2", "7"), "video-2, segment-7");
}

#[test]
fn clamp_end_cases() {
    assert_eq!(clamp_end_for_player(100, 2, Some(40), 80), (40, None));
    assert_eq!(clamp_end_for_player(100, 2, None, 80), (100, Some(100)));
    assert_eq!(clamp_end_for_player(100, 0, Some(40), 80), (100, Some(100)));
    assert_eq!(clamp_end_for_player(60, 0, None, 80), (60, None));
}

#[test]
fn start_time_for_syncing_cases() {
    let mut a = VideoSegment::new("A", 1);
    a.add_empty_segment("0");
    a.set_time("0", 3_000);
    let rows = vec![a];
    assert_eq!(start_time_for_syncing(0, 500, &rows, "0"), 500);
    assert_eq!(start_time_for_syncing(1, 500, &rows, "0"), 3_000);
}

#[test]
fn progress_steps() {
    assert_eq!(progress_step(None, 10, 0, 100), ProgressStep::Wait);
    assert_eq!(progress_step(Some(5), 10, 0, 100), ProgressStep::Wait);
    assert_eq!(progress_step(Some(40), 10, 5, 100), ProgressStep::Show { media_time: 35 });
    assert_eq!(progress_step(Some(120), 10, 0, 100), ProgressStep::Finish { media_time: 110 });
}

#[test]
fn shared_seek_bar_control_flow() {
    let mut b = SharedSeekBar::new();
    assert!(!b.get_control_state());
    assert!(!b.toggle_has_control());
    let t = SplitTable::new();
    assert!(b.take_shared_control(&t, &vec![]).is_empty());
    assert!(b.get_control_state());
    assert!(b.toggle_has_control());
    assert!(b.play_clicked());
    assert!(!b.play_clicked());
    assert!(b.play_clicked());
    assert!(b.seek_pressed());
    assert!(!b.seek_pressed());
    b.seek_released();
    b.release_shared_control();
    assert!(!b.get_control_state());
    assert!(b.play_clicked());
}

#[test]
fn jump_to_segment_defaults_to_first() {
    let mut b = SharedSeekBar::new();
    assert_eq!(b.jump_to_segment(Some(3)), 3);
    assert_eq!(b.jump_to_segment(None), 0);
}

#[test]
fn sync_events_drive_the_seek_bar() {
    let b = SharedSeekBar::new();
    assert_eq!(
        b.handle_sync_event(SyncEvent::PlaybackStarted { base_time: 7, scale_position: 9 }),
        ProgressCommand::Start { base_time: 7, scale_position: 9 }
    );
    assert_eq!(b.handle_sync_event(SyncEvent::PlaybackPaused), ProgressCommand::Stop);
    assert_eq!(b.handle_sync_event(SyncEvent::Seeked), ProgressCommand::Ignore);
    assert_eq!(b.handle_sync_event(SyncEvent::SyncEnabled { base_time: 1 }), ProgressCommand::Ignore);
    assert_eq!(b.handle_sync_event(SyncEvent::SyncDisabled), ProgressCommand::Ignore);
}

fn two_player_table() -> SplitTable {
    let mut t = SplitTable::new();
    t.set_max_number_of_video_players(2);
    t.add_start_time_offset_row();
    t.add_start_time_offset_row();
    t.append_empty_row(7);
    t.append_empty_row(8);
    t
}

fn placement_of(b: &SharedSeekBar, id: &str) -> Option<MarkPlacement> {
    b.get_seek_bar().update_mark_positions().into_iter().find(|(i, _)| i == id).map(|(_, p)| p)
}

#[test]
fn connect_column_marks_every_row_of_a_player() {
    let mut t = two_player_table();
    t.set_split(0, 40, 0).unwrap();
    t.set_split(0, 90, 1).unwrap();
    let mut b = SharedSeekBar::new();
    let ids = b.connect_column(&t, 0);
    assert_eq!(ids, vec!["video-0, segment-7".to_string(), "video-0, segment-8".to_string()]);
    let m = b.get_seek_bar().get_mark("video-0, segment-8").unwrap();
    assert_eq!(m.time.get_time(), 90);
    assert_eq!(m.offset.get_time(), 0);
    // The marks past the empty timeline ask for a new length.
    b.update_timeline_length();
    assert_eq!(b.get_seek_bar().get_timeline_length(), 90);
    assert_eq!(placement_of(&b, "video-0, segment-7"), Some(MarkPlacement::Visible { time: 40 }));
}

#[test]
fn connect_row_marks_each_player() {
    let mut t = two_player_table();
    t.set_split(1, 30, 1).unwrap();
    let mut b = SharedSeekBar::new();
    let ids = b.connect_row(&t, 1, &vec![0, 1]);
    assert_eq!(ids, vec!["video-0, segment-8".to_string(), "video-1, segment-8".to_string()]);
    assert_eq!(b.get_seek_bar().get_mark("video-0, segment-8").unwrap().time.get_time(), u64::MAX);
    assert_eq!(b.get_seek_bar().get_mark("video-1, segment-8").unwrap().time.get_time(), 30);
    assert!(b.get_seek_bar().get_mark("video-1, segment-7").is_none());
}

#[test]
fn remove_marks_drops_one_player() {
    let mut t = two_player_table();
    t.set_split(0, 50, 0).unwrap();
    t.set_split(1, 20, 0).unwrap();
    let mut b = SharedSeekBar::new();
    b.connect_column(&t, 0);
    b.connect_column(&t, 1);
    b.update_timeline_length();
    assert_eq!(b.get_seek_bar().get_timeline_length(), 50);
    b.remove_marks(&t, 0);
    assert!(b.get_seek_bar().get_mark("video-0, segment-7").is_none());
    assert!(b.get_seek_bar().get_mark("video-0, segment-8").is_none());
    assert!(b.get_seek_bar().get_mark("video-1, segment-7").is_some());
    assert_eq!(b.get_seek_bar().get_timeline_length(), 20);
}

#[test]
fn offset_change_moves_the_players_marks() {
    let mut t = two_player_table();
    t.set_split(0, 50, 0).unwrap();
    let mut b = SharedSeekBar::new();
    b.connect_column(&t, 0);
    b.update_timeline_length();
    assert_eq!(b.get_seek_bar().get_timeline_length(), 50);
    t.apply_start_time_offset_entry(0, 10);
    b.offset_changed(&t, 0);
    assert_eq!(b.get_seek_bar().get_mark("video-0, segment-7").unwrap().offset.get_time(), 10);
    assert_eq!(b.get_seek_bar().get_timeline_length(), 40);
    assert_eq!(placement_of(&b, "video-0, segment-7"), Some(MarkPlacement::Visible { time: 40 }));
    // An offset past a split hides that mark.
    t.apply_start_time_offset_entry(0, 60);
    b.offset_changed(&t, 0);
    assert_eq!(b.get_seek_bar().get_timeline_length(), 0);
}

#[test]
fn shared_control_clamps_to_last_split_or_video_end() {
    let mut t = two_player_table();
    t.set_split(0, 70, 0).unwrap();
    t.apply_start_time_offset_entry(0, 5);
    t.apply_start_time_offset_entry(1, 12);
    let mut b = SharedSeekBar::new();
    let clamps = b.take_shared_control(&t, &vec![(0, 1_000), (1, 400)]);
    assert_eq!(clamps, vec![(5, 70), (12, 400)]);
    assert!(b.get_control_state());
    // The video without a split stretched the empty timeline to its end.
    assert_eq!(b.get_seek_bar().get_timeline_length(), 400);
    // A longer timeline is kept.
    let mut b = SharedSeekBar::new();
    b.get_seek_bar_mut().set_timeline_length(900);
    let clamps = b.take_shared_control(&t, &vec![(1, 400)]);
    assert_eq!(clamps, vec![(12, 400)]);
    assert_eq!(b.get_seek_bar().get_timeline_length(), 900);
}

#[test]
fn shared_control_without_rows_clamps_to_video_end() {
    let mut t = SplitTable::new();
    t.add_start_time_offset_row();
    let mut b = SharedSeekBar::new();
    let clamps = b.take_shared_control(&t, &vec![(0, 300)]);
    assert_eq!(clamps, vec![(0, 300)]);
    assert_eq!(b.get_seek_bar().get_timeline_length(), 300);
}

#[test]
fn removing_marks_undoes_connecting_them() {
    let mut t = two_player_table();
    t.set_split(0, 50, 0).unwrap();
    t.set_split(1, 20, 1).unwrap();
    let mut b = SharedSeekBar::new();
    b.connect_column(&t, 1);
    let before = b.get_seek_bar().get_mark("video-1, segment-8");
    b.connect_column(&t, 0);
    b.remove_marks(&t, 0);
    assert_eq!(b.get_seek_bar().get_mark("video-1, segment-8"), before);
    assert_eq!(b.get_seek_bar().update_mark_positions().len(), 2);
}

#[test]
fn shared_marks_follow_split_edits_after_sync() {
    let mut t = two_player_table();
    t.set_split(0, 50, 0).unwrap();
    let mut b = SharedSeekBar::new();
    b.connect_column(&t, 0);
    b.update_timeline_length();
    assert_eq!(b.get_seek_bar().get_timeline_length(), 50);
    t.set_split(0, 80, 0).unwrap();
    // The mark still holds the time it was given ...
    assert_eq!(b.get_seek_bar().get_mark("video-0, segment-7").unwrap().time.get_time(), 50);
    b.sync_times(&t);
    // ... until it is brought in line with its row.
    let m = b.get_seek_bar().get_mark("video-0, segment-7").unwrap();
    assert_eq!(m.time.get_time(), 80);
    assert_eq!(m.time.get_old_time(), 50);
    // It sat at the end of the timeline, so the length follows it.
    assert_eq!(b.get_seek_bar().get_timeline_length(), 80);
    assert_eq!(placement_of(&b, "video-0, segment-7"), Some(MarkPlacement::Visible { time: 80 }));
}

#[test]
fn sync_leaves_unlinked_marks_and_unmoved_timeline() {
    let mut t = two_player_table();
    t.set_split(0, 50, 0).unwrap();
    t.set_split(0, 90, 1).unwrap();
    let mut b = SharedSeekBar::new();
    b.connect_column(&t, 0);
    b.get_seek_bar_mut().add_mark("extra".to_string(), TimeEntry::new(10), TimeEntry::new(0));
    b.update_timeline_length();
    assert_eq!(b.get_seek_bar().get_timeline_length(), 90);
    t.set_split(0, 60, 0).unwrap();
    b.sync_times(&t);
    assert_eq!(b.get_seek_bar().get_mark("video-0, segment-7").unwrap().time.get_time(), 60);
    assert_eq!(b.get_seek_bar().get_mark("extra").unwrap().time.get_time(), 10);
    // Neither the end mark moved nor a mark passed the end.
    assert_eq!(b.get_seek_bar().get_timeline_length(), 90);
}
