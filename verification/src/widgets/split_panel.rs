pub mod splits;
pub mod splittable;
pub mod timeentry;
pub mod videosegmentproxy;
