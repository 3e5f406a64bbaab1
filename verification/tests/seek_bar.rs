use video_splits::widgets::seek_bar::seek_bar::{Mark, MarkPlacement, SeekBar};
use video_splits::widgets::split_panel::timeentry::TimeEntry;
use video_splits::widgets::video_player_widget::seek_bar::SeekBar as PlayerSeekBar;

fn entry(time: u64) -> TimeEntry {
    TimeEntry::new(time)
}

#[test]
fn new_bar_has_no_marks() {
    let b = SeekBar::new(500, true);
    assert_eq!(b.get_timeline_length(), 500);
    assert!(b.update_mark_positions().is_empty());
    assert_eq!(b.get_mark("x"), None);
}

#[test]
fn timeline_length_follows_furthest_mark() {
    let mut b = SeekBar::new(0, true);
    b.add_mark("a".to_string(), entry(300), entry(100));
    b.add_mark("b".to_string(), entry(900), entry(0));
    b.add_mark("c".to_string(), entry(u64::MAX), entry(0));
    b.add_mark("d".to_string(), entry(50), entry(100).clone());
    b.update_timeline_length();
    assert_eq!(b.get_timeline_length(), 900);
    b.remove_mark("b");
    b.update_timeline_length();
    assert_eq!(b.get_timeline_length(), 200);
    b.reset_all_marks();
    assert_eq!(b.get_timeline_length(), 0);
    assert!(!b.remove_mark("a"));
}

#[test]
fn placements() {
    let mut b = SeekBar::new(1_000, false);
    b.add_mark("a".to_string(), entry(300), entry(100));
    b.add_mark("c".to_string(), entry(u64::MAX), entry(0));
    let mut ps = b.update_mark_positions();
    ps.sort_by(|x, y| x.0.cmp(&y.0));
    assert_eq!(
        ps,
        vec![
            ("a".to_string(), MarkPlacement::Visible { time: 200 }),
            ("c".to_string(), MarkPlacement::Hidden),
        ]
    );
    b.set_timeline_length(0);
    assert!(b.update_mark_positions().is_empty());
}

#[test]
fn moving_a_mark_past_the_end_grows_the_timeline() {
    let mut b = SeekBar::new(400, true);
    b.add_mark("a".to_string(), entry(400), entry(0));
    let mut e = entry(400);
    e.set_time(700);
    assert_eq!(b.mark_time_changed("a", e, entry(0)), MarkPlacement::Visible { time: 700 });
    assert_eq!(b.get_timeline_length(), 700);
    assert_eq!(b.get_mark("a"), Some(Mark { time: e, offset: entry(0) }));
}

#[test]
fn moving_the_last_mark_back_shrinks_the_timeline() {
    let mut b = SeekBar::new(0, true);
    b.add_mark("a".to_string(), entry(400), entry(0));
    b.add_mark("b".to_string(), entry(700), entry(0));
    b.update_timeline_length();
    let mut e = entry(700);
    e.set_time(100);
    assert_eq!(b.mark_time_changed("b", e, entry(0)), MarkPlacement::Visible { time: 100 });
    assert_eq!(b.get_timeline_length(), 400);
}

#[test]
fn without_auto_length_the_timeline_stays() {
    let mut b = SeekBar::new(400, false);
    b.add_mark("a".to_string(), entry(400), entry(0));
    let mut e = entry(400);
    e.set_time(900);
    assert_eq!(b.mark_time_changed("a", e, entry(0)), MarkPlacement::Visible { time: 900 });
    assert_eq!(b.get_timeline_length(), 400);
    b.set_auto_timeline_length_handling(true);
    b.add_mark("z".to_string(), entry(1_000), entry(0));
    let mut f = entry(1_000);
    f.set_time(1_000);
    b.mark_time_changed("z", f, entry(0));
    assert_eq!(b.get_timeline_length(), 1_000);
}

#[test]
fn unset_mark_is_hidden_and_empty_timeline_places_nothing() {
    let mut b = SeekBar::new(0, false);
    let mut e = entry(5);
    e.set_time(u64::MAX);
    assert_eq!(b.mark_time_changed("q", e, entry(0)), MarkPlacement::NoTimeline);
    b.set_timeline_length(10);
    assert_eq!(b.mark_time_changed("q", e, entry(0)), MarkPlacement::Hidden);
}

#[test]
fn player_seek_bar_moves_marks() {
    let mut b = PlayerSeekBar::new(100, true);
    b.add_mark("m".to_string(), entry(50));
    assert_eq!(b.update_mark_time("missing", 10), None);
    assert_eq!(b.update_mark_time("m", 300), Some(MarkPlacement::Visible { time: 300 }));
    assert_eq!(b.get_timeline_length(), 300);
    b.set_timeline_length(1_000);
    b.set_auto_timeline_length_handling(false);
    assert_eq!(b.update_mark_time("m", u64::MAX), Some(MarkPlacement::Hidden));
    assert_eq!(b.get_timeline_length(), 1_000);
    assert_eq!(b.update_mark_positions(), vec![("m".to_string(), MarkPlacement::Hidden)]);
    assert!(b.remove_mark("m"));
    b.update_timeline_length();
    assert_eq!(b.get_timeline_length(), 0);
}
