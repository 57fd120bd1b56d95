//! The storage locations the library computes paths against.  Paths are
//! plain text here; the embedding application turns them into platform
//! paths and performs all filesystem work.

use vstd::prelude::*;

verus! {

/// Where the application keeps its data: the storage root, the documents
/// directory beneath it, and the two cache files.
pub struct StoragePaths {
    pub root: String,
    pub prompts_dir: String,
    pub index_path: String,
    pub settings_path: String,
}

impl StoragePaths {
    /// Copies the path set; the copy has the same text in every field.
    pub fn duplicate(&self) -> (r: Self)
        ensures
            r.root@ == self.root@,
            r.prompts_dir@ == self.prompts_dir@,
            r.index_path@ == self.index_path@,
            r.settings_path@ == self.settings_path@,
    {
        StoragePaths {
            root: self.root.clone(),
            prompts_dir: self.prompts_dir.clone(),
            index_path: self.index_path.clone(),
            settings_path: self.settings_path.clone(),
        }
    }
}

} // verus!
