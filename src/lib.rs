//! File management for a drawing editor, verified with Verus: sandboxed path
//! validation, extension and content guards, pruned directory trees, collision
//! free file names, a copy-verify-remove rename protocol, the filter for
//! watcher events, and a bounded diagnostic log. Disk access stays with the
//! caller, which hands the library plain values.

pub mod error;
pub mod path_guard;
pub mod content_guard;
pub mod models;
pub mod order;
pub mod tree;
pub mod naming;
pub mod file_ops;
pub mod rename;
pub mod watch;
pub mod logs;

pub use error::FsError;
pub use logs::{LogEntry, LogStorage};
pub use models::{AppState, EntryKind, ExcalidrawFile, FileTreeNode, Preferences, ScannedEntry};
pub use tree::{get_file_tree, list_excalidraw_files};
