//! Application launcher core: desktop-file discovery, frecency scoring of
//! launches and the launcher window's state machine.

pub mod frecency;
pub mod app_source;
pub mod iced_ui;
pub mod counter;
pub mod db;
pub mod applauncher;
