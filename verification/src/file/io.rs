//! Markdown detection. Reading and writing files is the application's.

pub use crate::pathname::is_markdown_file;
