pub mod helpers;
pub mod video_pipeline;
pub mod widgets;
pub mod window;
