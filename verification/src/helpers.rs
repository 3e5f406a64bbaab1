pub mod debounce;
pub mod format;
pub mod parse;
pub mod str_map;
pub mod text;
