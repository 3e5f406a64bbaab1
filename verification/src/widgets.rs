pub mod seek_bar;
pub mod split_panel;
pub mod sync;
pub mod video_player_widget;
