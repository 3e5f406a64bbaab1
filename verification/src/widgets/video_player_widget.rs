pub mod seek_bar;
pub mod video_player;
