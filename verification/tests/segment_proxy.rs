use video_splits::widgets::split_panel::splits::VideoSegment;
use video_splits::widgets::split_panel::videosegmentproxy::VideoSegmentProxy;

fn row() -> VideoSegment {
    let mut seg = VideoSegment::new("Intro", 3);
    seg.add_empty_segment("0");
    seg.add_empty_segment("1");
    seg.set_time("0", 5_000);
    seg.set_offset("0", 1_500);
    seg.set_duration("0", 4_000);
    seg.set_offset("1", 2_000);
    seg
}

#[test]
fn proxy_reads_each_field() {
    let seg = row();
    assert_eq!(VideoSegmentProxy::new(&seg, "0", "time").value(), 5_000);
    assert_eq!(VideoSegmentProxy::new(&seg, "0", "duration").value(), 4_000);
    assert_eq!(VideoSegmentProxy::new(&seg, "0", "offset").value(), 1_500);
    assert_eq!(VideoSegmentProxy::new(&seg, "0", "relative-time").value(), 3_500);
}

#[test]
fn proxy_unset_values_read_as_max() {
    let seg = row();
    assert_eq!(VideoSegmentProxy::new(&seg, "1", "time").value(), u64::MAX);
    assert_eq!(VideoSegmentProxy::new(&seg, "1", "duration").value(), u64::MAX);
    assert_eq!(VideoSegmentProxy::new(&seg, "1", "relative-time").value(), u64::MAX);
    assert_eq!(VideoSegmentProxy::new(&seg, "0", "colour").value(), u64::MAX);
}

#[test]
fn proxy_relative_time_does_not_go_below_zero() {
    let mut seg = row();
    seg.set_time("1", 1_000);
    assert_eq!(VideoSegmentProxy::new(&seg, "1", "relative-time").value(), 0);
}

#[test]
fn proxy_signals() {
    let seg = row();
    assert_eq!(VideoSegmentProxy::new(&seg, "0", "time").relevant_signals(), vec!["time".to_string()]);
    assert_eq!(
        VideoSegmentProxy::new(&seg, "0", "relative-time").relevant_signals(),
        vec!["time".to_string(), "offset".to_string()]
    );
    assert!(VideoSegmentProxy::new(&seg, "0", "colour").relevant_signals().is_empty());
}

#[test]
fn proxy_concerns_only_its_player() {
    let seg = row();
    let p = VideoSegmentProxy::new(&seg, "1", "time");
    assert!(p.concerns("1"));
    assert!(!p.concerns("0"));
    assert!(!p.concerns("10"));
}
