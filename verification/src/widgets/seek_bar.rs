pub mod color_picker;
pub mod seek_bar;
pub mod shared_seek_bar;
