use vstd::prelude::*;

verus! {

/// A file of the recognized format, as listed to the interface.
#[derive(Debug, Clone)]
pub struct ExcalidrawFile {
    pub name: String,
    pub path: String,
    pub modified: bool,
}

/// One node of the pruned directory tree. Files have no children; a
/// directory carries the (non-empty) list of its retained entries.
#[derive(Debug)]
pub struct FileTreeNode {
    pub name: String,
    pub path: String,
    pub is_directory: bool,
    pub modified: bool,
    pub children: Option<Vec<FileTreeNode>>,
}

/// What a directory scan found at one entry.
#[derive(Debug)]
pub enum EntryKind {
    File,
    Directory(Vec<ScannedEntry>),
    Other,
}

/// One entry of a directory scan, with the scan of its contents when it is a
/// directory.
#[derive(Debug)]
pub struct ScannedEntry {
    pub name: String,
    pub path: String,
    pub kind: EntryKind,
}

/// The user's interface settings.
#[derive(Debug, Clone)]
pub struct Preferences {
    pub last_directory: Option<String>,
    pub recent_directories: Vec<String>,
    pub theme: String,
    pub sidebar_visible: bool,
}

impl Default for Preferences {
    fn default() -> (r: Self)
        ensures
            r.last_directory is None,
            r.recent_directories@.len() == 0,
            r.theme@ == seq!['s', 'y', 's', 't', 'e', 'm'],
            r.sidebar_visible,
    {
        proof {
            reveal_strlit("system");
        }
        let theme = String::from_str("system");
        assert(theme@ =~= seq!['s', 'y', 's', 't', 'e', 'm']);
        Preferences {
            last_directory: None,
            recent_directories: Vec::new(),
            theme,
            sidebar_visible: true,
        }
    }
}

impl Preferences {
    /// The stored preferences when they could be read, else the defaults.
    pub fn or_default(stored: Option<Preferences>) -> (r: Preferences)
        ensures
            stored is Some ==> r == stored->Some_0,
            stored is None ==> r.last_directory is None && r.recent_directories@.len() == 0
                && r.theme@ == seq!['s', 'y', 's', 't', 'e', 'm'] && r.sidebar_visible,
    {
        match stored {
            Some(p) => p,
            None => Preferences::default(),
        }
    }
}

/// Process-wide state: the open directory and the files with unsaved edits.
#[derive(Debug)]
pub struct AppState {
    pub current_directory: Option<String>,
    pub modified_files: Vec<String>,
}

impl AppState {
    pub fn new() -> (r: AppState)
        ensures
            r.current_directory is None,
            r.modified_files@.len() == 0,
    {
        AppState { current_directory: None, modified_files: Vec::new() }
    }

    /// Makes `dir` the open directory; the list of modified files is kept.
    pub fn set_current_directory(&mut self, dir: String)
        ensures
            final(self).current_directory == Some(dir),
            final(self).modified_files == old(self).modified_files,
    {
        self.current_directory = Some(dir);
    }
}

} // verus!
