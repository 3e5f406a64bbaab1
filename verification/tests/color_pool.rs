use video_splits::widgets::seek_bar::color_picker::ColorPool;

fn pool(colors: &[&str]) -> ColorPool {
    ColorPool::new(colors.iter().map(|c| c.to_string()).collect())
}

#[test]
fn colors_are_handed_out_in_order() {
    let mut p = pool(&["red", "blue", "green"]);
    assert_eq!(p.assign_color("1"), Some("red".to_string()));
    assert_eq!(p.assign_color("2"), Some("blue".to_string()));
    assert_eq!(p.assign_color("3"), Some("green".to_string()));
}

#[test]
fn empty_pool_gives_nothing() {
    let mut p = pool(&["red"]);
    assert_eq!(p.assign_color("1"), Some("red".to_string()));
    assert_eq!(p.assign_color("2"), None);
    let mut q = pool(&[]);
    assert_eq!(q.assign_color("1"), None);
}

#[test]
fn released_color_goes_last() {
    let mut p = pool(&["red", "blue", "green"]);
    assert_eq!(p.assign_color("1"), Some("red".to_string()));
    p.release_color("1");
    assert_eq!(p.assign_color("2"), Some("blue".to_string()));
    assert_eq!(p.assign_color("3"), Some("green".to_string()));
    assert_eq!(p.assign_color("4"), Some("red".to_string()));
    assert_eq!(p.assign_color("5"), None);
}

#[test]
fn releasing_unknown_player_changes_nothing() {
    let mut p = pool(&["red", "blue"]);
    p.release_color("7");
    assert_eq!(p.assign_color("1"), Some("red".to_string()));
    p.release_color("7");
    assert_eq!(p.assign_color("2"), Some("blue".to_string()));
    assert_eq!(p.assign_color("3"), None);
}

#[test]
fn releasing_twice_returns_color_once() {
    let mut p = pool(&["red", "blue"]);
    assert_eq!(p.assign_color("1"), Some("red".to_string()));
    p.release_color("1");
    p.release_color("1");
    assert_eq!(p.assign_color("2"), Some("blue".to_string()));
    assert_eq!(p.assign_color("3"), Some("red".to_string()));
    assert_eq!(p.assign_color("4"), None);
}

#[test]
fn second_assignment_replaces_first() {
    let mut p = pool(&["red", "blue", "green"]);
    assert_eq!(p.assign_color("1"), Some("red".to_string()));
    assert_eq!(p.assign_color("1"), Some("blue".to_string()));
    // Only the color held last comes back.
    p.release_color("1");
    assert_eq!(p.assign_color("2"), Some("green".to_string()));
    assert_eq!(p.assign_color("3"), Some("blue".to_string()));
    assert_eq!(p.assign_color("4"), None);
}
