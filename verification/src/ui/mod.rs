//! What the sidebar and the editor area show.

pub mod file_tree;
pub mod root;
pub mod tree_laws;
