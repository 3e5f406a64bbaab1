use video_splits::widgets::video_player_widget::video_player::{PlayAction, VideoPlayer};

#[test]
fn new_player_is_black_and_paused() {
    let mut p = VideoPlayer::new("4");
    assert_eq!(p.get_id(), "4");
    assert_eq!(p.get_color(), "black");
    assert_eq!(p.play_clicked(), PlayAction::Play);
}

#[test]
fn play_button_toggles() {
    let mut p = VideoPlayer::new("0");
    assert_eq!(p.play_clicked(), PlayAction::Play);
    assert_eq!(p.play_clicked(), PlayAction::Pause);
    assert_eq!(p.play_clicked(), PlayAction::Play);
}

#[test]
fn color_is_kept() {
    let mut p = VideoPlayer::new("0");
    p.set_color("#ff0000");
    assert_eq!(p.get_color(), "#ff0000");
    assert_eq!(p.get_id(), "0");
}
