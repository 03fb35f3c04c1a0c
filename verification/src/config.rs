//! App-level settings kept in `config.json`: the Scanned Root the Library
//! walks, Course Folders added from elsewhere, and Course Folders the user
//! asked the Library to forget.

use vstd::prelude::*;

verus! {

pub const CONFIG_FILENAME: &'static str = "config.json";

#[derive(Debug, Clone, PartialEq)]
pub struct AppConfig {
    pub scanned_root: Option<String>,
    /// Course Folders outside the Scanned Root added explicitly.
    pub pinned_folders: Vec<String>,
    /// Course Folders inside the Scanned Root the user removed from the
    /// Library; their bytes stay on disk.
    pub ignored_folders: Vec<String>,
}

impl Default for AppConfig {
    fn default() -> (c: AppConfig)
        ensures
            c.scanned_root is None,
            c.pinned_folders@.len() == 0,
            c.ignored_folders@.len() == 0,
    {
        AppConfig { scanned_root: None, pinned_folders: Vec::new(), ignored_folders: Vec::new() }
    }
}

impl AppConfig {
    /// The configuration with the Scanned Root set to `root`.
    pub fn set_scanned_root(&mut self, root: String)
        ensures
            final(self).scanned_root == Some(root),
            final(self).pinned_folders == old(self).pinned_folders,
            final(self).ignored_folders == old(self).ignored_folders,
    {
        self.scanned_root = Some(root);
    }
}

} // verus!
