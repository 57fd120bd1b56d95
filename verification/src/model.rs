//! The data model of the cached index: per-document metadata, folder
//! records, and the index aggregate, together with their mathematical
//! views used by every contract in the crate.

use vstd::prelude::*;

verus! {

/// One cached entry per document.  `(folder, filename)` locates the backing
/// file under the documents root; everything else is user metadata that only
/// the index knows.
pub struct PromptMetadata {
    pub id: String,
    pub name: String,
    pub folder: String,
    pub description: String,
    pub filename: String,
    pub use_count: u64,
    pub last_used: Option<String>,
    pub created: String,
    pub updated: String,
    pub icon: Option<String>,
    pub color: Option<String>,
}

/// Mathematical view of a [`PromptMetadata`]: every text field as a
/// character sequence.
#[verifier::ext_equal]
pub struct PromptMetadataModel {
    pub id: Seq<char>,
    pub name: Seq<char>,
    pub folder: Seq<char>,
    pub description: Seq<char>,
    pub filename: Seq<char>,
    pub use_count: u64,
    pub last_used: Option<Seq<char>>,
    pub created: Seq<char>,
    pub updated: Seq<char>,
    pub icon: Option<Seq<char>>,
    pub color: Option<Seq<char>>,
}

impl View for PromptMetadata {
    type V = PromptMetadataModel;

    open spec fn view(&self) -> PromptMetadataModel {
        PromptMetadataModel {
            id: self.id@,
            name: self.name@,
            folder: self.folder@,
            description: self.description@,
            filename: self.filename@,
            use_count: self.use_count,
            last_used: self.last_used.deep_view(),
            created: self.created@,
            updated: self.updated@,
            icon: self.icon.deep_view(),
            color: self.color.deep_view(),
        }
    }
}

/// A full document: its metadata plus the file's text, materialized only
/// while a single document is read or written.
pub struct Prompt {
    pub meta: PromptMetadata,
    pub content: String,
}

/// A folder's decorative record, keyed by the folder's name.
pub struct FolderMeta {
    pub name: String,
    pub icon: Option<String>,
    pub color: Option<String>,
}

#[verifier::ext_equal]
pub struct FolderMetaModel {
    pub name: Seq<char>,
    pub icon: Option<Seq<char>>,
    pub color: Option<Seq<char>>,
}

impl View for FolderMeta {
    type V = FolderMetaModel;

    open spec fn view(&self) -> FolderMetaModel {
        FolderMetaModel {
            name: self.name@,
            icon: self.icon.deep_view(),
            color: self.color.deep_view(),
        }
    }
}

/// The cached index aggregate: the entry list, the ordered list of known
/// folder names, the optional folder decoration records (an association
/// list keyed by `FolderMeta::name`), and the first-run seeding flag.
pub struct PromptIndex {
    pub prompts: Vec<PromptMetadata>,
    pub folders: Vec<String>,
    pub folder_meta: Option<Vec<FolderMeta>>,
    pub seeded: bool,
}

#[verifier::ext_equal]
pub struct PromptIndexModel {
    pub prompts: Seq<PromptMetadataModel>,
    pub folders: Seq<Seq<char>>,
    pub folder_meta: Option<Seq<FolderMetaModel>>,
    pub seeded: bool,
}

/// The views of a sequence of entries, element by element.
pub open spec fn metas_of(v: Seq<PromptMetadata>) -> Seq<PromptMetadataModel> {
    Seq::new(v.len(), |i: int| v[i]@)
}

/// The views of a sequence of folder records, element by element.
pub open spec fn folder_metas_of(v: Seq<FolderMeta>) -> Seq<FolderMetaModel> {
    Seq::new(v.len(), |i: int| v[i]@)
}

impl View for PromptIndex {
    type V = PromptIndexModel;

    open spec fn view(&self) -> PromptIndexModel {
        PromptIndexModel {
            prompts: metas_of(self.prompts@),
            folders: self.folders.deep_view(),
            folder_meta: match self.folder_meta {
                Some(v) => Some(folder_metas_of(v@)),
                None => None,
            },
            seeded: self.seeded,
        }
    }
}

impl Default for PromptIndex {
    /// A fresh index: no entries, no folders, no decorations, not seeded.
    fn default() -> (r: Self)
        ensures
            r@.prompts.len() == 0,
            r@.folders.len() == 0,
            r@.folder_meta is None,
            r@.seeded == false,
    {
        PromptIndex { prompts: Vec::new(), folders: Vec::new(), folder_meta: None, seeded: false }
    }
}

/// Copies an optional text field so that the copy has the same view.
pub fn clone_opt_string(o: &Option<String>) -> (r: Option<String>)
    ensures
        r.deep_view() == o.deep_view(),
{
    match o {
        Some(s) => Some(s.clone()),
        None => None,
    }
}

impl FolderMeta {
    /// Copies a folder record field by field; the copy has the same view.
    pub fn duplicate(&self) -> (r: Self)
        ensures
            r@ == self@,
    {
        let r = FolderMeta {
            name: self.name.clone(),
            icon: clone_opt_string(&self.icon),
            color: clone_opt_string(&self.color),
        };
        assert(r@ =~= self@);
        r
    }
}

impl PromptMetadata {
    /// Copies an entry field by field; the copy has the same view.
    pub fn duplicate(&self) -> (r: Self)
        ensures
            r@ == self@,
    {
        let r = PromptMetadata {
            id: self.id.clone(),
            name: self.name.clone(),
            folder: self.folder.clone(),
            description: self.description.clone(),
            filename: self.filename.clone(),
            use_count: self.use_count,
            last_used: clone_opt_string(&self.last_used),
            created: self.created.clone(),
            updated: self.updated.clone(),
            icon: clone_opt_string(&self.icon),
            color: clone_opt_string(&self.color),
        };
        assert(r@ =~= self@);
        r
    }
}

} // verus!
