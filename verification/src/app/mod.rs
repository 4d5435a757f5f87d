//! The editor's own decisions: tabs, saving, external changes and the
//! questions put to the user.

pub mod modals;
pub mod open_tabs;
pub mod tabs;
pub mod lifecycle;
pub mod scan;
pub mod workbench;
