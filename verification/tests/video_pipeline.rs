use video_splits::video_pipeline::{
    get_current_frame, ClampAction, DirectionSeek, PipelineState, PlaybackDirection, StepPlan,
    VideoClamp, VideoPipeline,
};

#[test]
fn pipeline_state_starts_forward() {
    assert_eq!(PipelineState::new().direction, PlaybackDirection::Forward);
}

#[test]
fn clamp_position_cases() {
    let c = VideoClamp::new(10, 20);
    assert_eq!(c.clamp_position(5), 10);
    assert_eq!(c.clamp_position(15), 15);
    assert_eq!(c.clamp_position(25), 20);
    assert_eq!(c.clamp_position(10), 10);
    assert_eq!(c.clamp_position(20), 20);
    // With the window turned around, the start wins.
    let d = VideoClamp::new(30, 20);
    assert_eq!(d.clamp_position(25), 30);
}

#[test]
fn clamp_monitor_actions() {
    let c = VideoClamp::new(10, 20);
    assert_eq!(c.check_and_clamp_position(true, Some(20)), ClampAction::PauseAtEnd);
    assert_eq!(c.check_and_clamp_position(true, Some(25)), ClampAction::PauseAtEnd);
    assert_eq!(c.check_and_clamp_position(true, Some(9)), ClampAction::SeekToStart);
    assert_eq!(c.check_and_clamp_position(true, Some(10)), ClampAction::Keep);
    assert_eq!(c.check_and_clamp_position(true, None), ClampAction::Keep);
    assert_eq!(c.check_and_clamp_position(false, Some(25)), ClampAction::Keep);
}

#[test]
fn unclamped_pipeline_reports_errors() {
    let p = VideoPipeline::new();
    assert_eq!(p.get_logical_duration(), Err("Video is not currently clamped".to_string()));
    assert_eq!(p.get_start(), Err("Video not is currently clamped".to_string()));
    assert_eq!(p.get_end(), Err("Video not is currently clamped".to_string()));
    assert_eq!(p.seek_to_start(), 0);
    assert_eq!(p.seek_to_end(Some(900)), Ok(900));
    assert_eq!(p.seek_to_end(None), Err("Could not get video duration".to_string()));
    assert_eq!(p.seek_clamped(1234), 1234);
}

#[test]
fn apply_clamp_and_reset() {
    let mut p = VideoPipeline::new();
    assert_eq!(p.apply_clamp(30, 10), Err("start exceeds end clamp".to_string()));
    assert_eq!(p.get_start(), Err("Video not is currently clamped".to_string()));
    assert_eq!(p.apply_clamp(100, 500), Ok(true));
    assert_eq!(p.apply_clamp(200, 500), Ok(false));
    assert_eq!(p.get_start(), Ok(200));
    assert_eq!(p.get_end(), Ok(500));
    assert_eq!(p.get_logical_duration(), Ok(300));
    assert_eq!(p.seek_to_start(), 200);
    assert_eq!(p.seek_to_end(None), Ok(500));
    assert_eq!(p.seek_clamped(50), 200);
    assert_eq!(p.seek_clamped(300), 300);
    assert_eq!(p.seek_clamped(900), 500);
    assert_eq!(p.reset_clamps(), Ok(()));
    assert_eq!(p.get_end(), Err("Video not is currently clamped".to_string()));
    assert_eq!(p.apply_clamp(7, 7), Ok(true));
    assert_eq!(p.get_logical_duration(), Ok(0));
}

#[test]
fn first_frame_duration_stays() {
    let mut p = VideoPipeline::new();
    assert_eq!(p.frame_duration(), None);
    assert_eq!(p.set_frame_duration(33_333_333), 33_333_333);
    assert_eq!(p.frame_duration(), Some(33_333_333));
    assert_eq!(p.set_frame_duration(40_000_000), 40_000_000);
    assert_eq!(p.frame_duration(), Some(33_333_333));
    p.reset();
    assert_eq!(p.frame_duration(), None);
}

#[test]
fn seek_to_the_end_stops_a_frame_early() {
    let mut p = VideoPipeline::new();
    p.set_frame_duration(40);
    assert_eq!(p.seek_position(1_000, 1_000), 960);
    assert_eq!(p.seek_position(999, 1_000), 999);
    assert_eq!(p.seek_position(1_001, 1_000), 1_001);
}

#[test]
fn direction_changes_need_a_position() {
    let mut p = VideoPipeline::new();
    assert_eq!(p.set_direction_backward(None), None);
    assert_eq!(p.direction(), PlaybackDirection::Forward);
    assert_eq!(
        p.set_direction_backward(Some(70)),
        Some(DirectionSeek { forward: false, start: 0, stop: Some(70) })
    );
    assert_eq!(p.direction(), PlaybackDirection::Reverse);
    assert!(p.play_video());
    assert_eq!(p.set_direction_forward(Some(80)), Some(DirectionSeek { forward: true, start: 80, stop: None }));
    assert_eq!(p.direction(), PlaybackDirection::Forward);
    assert!(!p.play_video());
}

#[test]
fn frame_steps() {
    let mut p = VideoPipeline::new();
    assert_eq!(p.frame_forward(false), StepPlan::NotPaused);
    assert_eq!(p.frame_forward(true), StepPlan::Step { turn: false });
    assert_eq!(p.frame_backward(true), StepPlan::Step { turn: true });
    p.set_direction_backward(Some(10));
    assert_eq!(p.frame_forward(true), StepPlan::Step { turn: true });
    assert_eq!(p.frame_backward(true), StepPlan::Step { turn: false });
    assert_eq!(p.frame_backward(false), StepPlan::NotPaused);
}

#[test]
fn clamped_frame_steps() {
    let mut p = VideoPipeline::new();
    p.set_frame_duration(10);
    p.apply_clamp(100, 200).unwrap();
    assert_eq!(p.frame_forward_clamped(Some(195), true), StepPlan::Blocked);
    assert_eq!(p.frame_forward_clamped(Some(190), true), StepPlan::Step { turn: false });
    assert_eq!(p.frame_forward_clamped(Some(190), false), StepPlan::NotPaused);
    assert_eq!(p.frame_forward_clamped(None, true), StepPlan::Step { turn: false });
    assert_eq!(p.frame_backward_clamped(None, true), Err("Could not get video position".to_string()));
    assert_eq!(p.frame_backward_clamped(Some(105), true), Ok(None));
    assert_eq!(p.frame_backward_clamped(Some(110), true), Ok(Some(100)));
    assert_eq!(p.frame_backward_clamped(Some(150), false), Ok(None));
    p.reset_clamps().unwrap();
    assert_eq!(p.frame_backward_clamped(Some(5), true), Ok(Some(0)));
    assert_eq!(p.frame_forward_clamped(Some(u64::MAX), true), StepPlan::Step { turn: false });
}

#[test]
fn current_frame_from_position() {
    assert_eq!(get_current_frame(1_000_000_000, 30), 30);
    assert_eq!(get_current_frame(999_999_999, 1), 0);
    assert_eq!(get_current_frame(100_000_000, 25), 2);
    assert_eq!(get_current_frame(5, 1_000_000_000), 5);
}
