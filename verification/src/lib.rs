//! Mieli: the verified core of a local-first Markdown editor.

pub mod actions;
pub mod app;
pub mod autosave;
pub mod config;
pub mod file;
pub mod i18n;
pub mod pathname;
pub mod state;
pub mod text;
pub mod ui;
