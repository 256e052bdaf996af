//! Scrollback viewer logic: word and line jump labels, incremental search,
//! configuration, viewport navigation and per-line span styling.

pub mod text;
pub mod style;
pub mod toml_doc;
pub mod protocol;
pub mod search;
pub mod flash;
pub mod sorting;
pub mod flash_laws;
pub mod render;
pub mod config;
pub mod config_laws;
pub mod viewer;
pub mod viewer_laws;

pub use style::StyledChar;
