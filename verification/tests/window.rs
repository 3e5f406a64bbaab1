use video_splits::helpers::debounce::{ClickDebounce, DEBOUNCE_MS};
use video_splits::window::{new_color_pool, Admission, MAX_VIDEO_PLAYERS};

#[test]
fn debounce_takes_clicks_spaced_by_the_quiet_time() {
    let mut d = ClickDebounce::new(DEBOUNCE_MS);
    assert!(d.click(1_000));
    assert!(!d.click(1_100));
    assert!(!d.click(1_199));
    assert!(d.click(1_200));
    assert!(!d.click(1_300));
    // A clock that went back counts as no time passed.
    assert!(!d.click(5));
    assert!(d.click(1_400));
}

#[test]
fn zero_quiet_time_takes_every_click() {
    let mut d = ClickDebounce::new(0);
    assert!(d.click(7));
    assert!(d.click(7));
    assert!(d.click(3));
}

#[test]
fn released_colors_come_back_once_each() {
    let mut pool = new_color_pool();
    let mut held = Vec::new();
    for i in 0..6 {
        held.push(pool.assign_color(&i.to_string()).unwrap());
    }
    pool.release_color("2");
    pool.release_color("4");
    pool.release_color("4");
    let a = pool.assign_color("x").unwrap();
    let b = pool.assign_color("y").unwrap();
    assert_eq!((a.as_str(), b.as_str()), ("green", "coral"));
    assert_eq!(pool.assign_color("z"), None);
}

use video_splits::widgets::seek_bar::seek_bar::MarkPlacement;
use video_splits::window::Window;

fn shared_time(w: &Window, id: &str) -> u64 {
    w.shared().get_seek_bar().get_mark(id).unwrap().time.time
}

fn player_placement(w: &Window, j: usize, id: &str) -> MarkPlacement {
    w.bar(j)
        .update_mark_positions()
        .into_iter()
        .find(|(k, _)| k == id)
        .map(|(_, p)| p)
        .unwrap()
}

#[test]
fn window_admits_six_players_then_refuses() {
    let mut w = Window::new();
    let expected = ["red", "blue", "green", "black", "coral", "lavender"];
    for color in expected {
        assert_eq!(w.add_player(), Admission::Admitted { color: color.to_string() });
    }
    assert_eq!(w.players(), &vec![0, 1, 2, 3, 4, 5]);
    assert_eq!(w.players().len() as u32, MAX_VIDEO_PLAYERS);
    assert_eq!(w.add_player(), Admission::Full);
    assert_eq!(w.players().len(), 6);
    assert_eq!(w.colors().clone().assign_color("x"), None);
}

#[test]
fn window_removed_player_frees_its_place_and_color() {
    let mut w = Window::new();
    for _ in 0..6 {
        w.add_player();
    }
    assert!(!w.remove_player(42));
    assert!(w.remove_player(1));
    assert_eq!(w.players(), &vec![0, 2, 3, 4, 5]);
    assert_eq!(w.table().get_start_time_offset_liststore().len(), 6);
    assert_eq!(w.add_player(), Admission::Admitted { color: "blue".to_string() });
    assert_eq!(w.players(), &vec![0, 2, 3, 4, 5, 6]);
    assert_eq!(w.add_player(), Admission::Full);
    assert!(!w.remove_player(1));
}

#[test]
fn window_marks_follow_split_time_edits() {
    let mut w = Window::new();
    w.add_player();
    assert_eq!(w.insert_row(0), 0);
    w.set_player_timeline_length(0, 60_000);
    assert_eq!(shared_time(&w, "video-0, segment-0"), u64::MAX);
    w.apply_time_entry(0, 0, 5_000);
    assert_eq!(shared_time(&w, "video-0, segment-0"), 5_000);
    assert_eq!(player_placement(&w, 0, "video-0, row-0"), MarkPlacement::Visible { time: 5_000 });
    assert_eq!(w.set_split(0, 7_000, 3), Err("Segment not selected".to_string()));
    assert_eq!(shared_time(&w, "video-0, segment-0"), 5_000);
    assert_eq!(w.set_split(0, 7_000, 0), Ok(()));
    assert_eq!(shared_time(&w, "video-0, segment-0"), 7_000);
    assert_eq!(player_placement(&w, 0, "video-0, row-0"), MarkPlacement::Visible { time: 7_000 });
    w.apply_duration_entry(0, 0, 3_000);
    assert_eq!(shared_time(&w, "video-0, segment-0"), 3_000);
    assert_eq!(player_placement(&w, 0, "video-0, row-0"), MarkPlacement::Visible { time: 3_000 });
}

#[test]
fn window_marks_of_a_new_player_follow_existing_rows() {
    let mut w = Window::new();
    w.add_player();
    assert_eq!(w.insert_row(0), 0);
    assert_eq!(w.insert_row(1), 1);
    assert_eq!(w.next_row_id(), 2);
    w.add_player();
    w.apply_time_entry(1, 1, 9_000);
    assert_eq!(shared_time(&w, "video-1, segment-1"), 9_000);
    assert_eq!(shared_time(&w, "video-0, segment-1"), u64::MAX);
    w.set_player_timeline_length(1, 60_000);
    assert_eq!(player_placement(&w, 1, "video-1, seg-1"), MarkPlacement::Visible { time: 9_000 });
}

#[test]
fn window_offset_moves_the_shared_marks_of_its_player() {
    let mut w = Window::new();
    w.add_player();
    w.add_player();
    assert_eq!(w.insert_row(0), 0);
    w.apply_time_entry(0, 0, 5_000);
    w.apply_start_time_offset_entry(0, 1_000);
    let m = w.shared().get_seek_bar().get_mark("video-0, segment-0").unwrap();
    assert_eq!((m.time.time, m.offset.time), (5_000, 1_000));
    let other = w.shared().get_seek_bar().get_mark("video-1, segment-0").unwrap();
    assert_eq!(other.offset.time, 0);
    assert_eq!(w.set_start_time_offset(1, 2_000), Ok(()));
    let other = w.shared().get_seek_bar().get_mark("video-1, segment-0").unwrap();
    assert_eq!(other.offset.time, 2_000);
}

#[test]
fn window_shared_flags_leave_the_marks() {
    let mut w = Window::new();
    w.add_player();
    assert_eq!(w.insert_row(0), 0);
    w.apply_time_entry(0, 0, 4_000);
    assert!(w.play_clicked() == false);
    assert!(!w.seek_pressed());
    w.seek_released();
    assert_eq!(w.jump_to_segment(None), 0);
    let clamps = w.take_shared_control(&vec![(0, 10_000)]);
    assert_eq!(clamps, vec![(0, 4_000)]);
    assert!(w.shared().get_control_state());
    w.release_shared_control();
    assert!(!w.shared().get_control_state());
    assert_eq!(shared_time(&w, "video-0, segment-0"), 4_000);
}
