pub mod format;
pub mod host;
pub mod parse;
pub mod registry;
pub mod render;
