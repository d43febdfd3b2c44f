//! Bundles a directory tree of text files into one quoted, fenced text blob.
//!
//! The library holds the decisions: which candidate entries qualify, how a
//! path is displayed relative to the root, how content is escaped and how the
//! blocks are laid out. Walking the file system and reading the files happen
//! outside; their results come in as plain values.
pub mod bundle;
pub mod laws;
pub mod options;
pub mod paths;
pub mod text;

pub use bundle::{append_block, process_folder, Entry, EntryKind};
pub use options::WalkOptions;
pub use paths::{display_path, relative_path};
pub use text::{escape_quotes, is_utf8};
