use open_prompts::index_service::{
    add_folder, delete_folder, filename_to_title, has_markdown_extension, normalize_folder,
    rename_folder, sort_scan, sync_index_with_filesystem, ScanEntry,
};
use open_prompts::model::{FolderMeta, PromptIndex, PromptMetadata};

fn meta(id: &str, name: &str, folder: &str, filename: &str, updated: &str) -> PromptMetadata {
    PromptMetadata {
        id: id.to_string(),
        name: name.to_string(),
        folder: folder.to_string(),
        description: String::new(),
        filename: filename.to_string(),
        use_count: 0,
        last_used: None,
        created: updated.to_string(),
        updated: updated.to_string(),
        icon: None,
        color: None,
    }
}

fn scan(folder: &str, filename: &str, modified: Option<&str>) -> ScanEntry {
    ScanEntry {
        folder: folder.to_string(),
        filename: filename.to_string(),
        modified: modified.map(|s| s.to_string()),
    }
}

#[test]
fn sync_discovers_new_files() {
    let mut index = PromptIndex::default();
    let files = vec![
        scan("", "alpha.md", Some("2024-01-02T00:00:00+00:00")),
        scan("Work", "beta_notes.md", Some("2024-01-03T00:00:00+00:00")),
    ];
    let now = "2024-01-04T00:00:00+00:00".to_string();
    let changed = sync_index_with_filesystem(&mut index, &files, &now);
    assert!(changed);
    assert_eq!(index.prompts.len(), 2);
    assert_eq!(index.prompts[0].name, "alpha");
    assert_eq!(index.prompts[0].folder, "");
    assert_eq!(index.prompts[0].updated, "2024-01-02T00:00:00+00:00");
    assert_eq!(index.prompts[0].created, "2024-01-02T00:00:00+00:00");
    assert_eq!(index.prompts[0].use_count, 0);
    assert_eq!(index.prompts[0].id.len(), 36);
    assert_eq!(index.prompts[1].name, "beta notes");
    assert_eq!(index.prompts[1].folder, "Work");
    assert_eq!(index.folders, vec!["Work".to_string()]);
}

#[test]
fn sync_preserves_cached_metadata_and_refreshes_timestamp() {
    let mut index = PromptIndex::default();
    let mut m = meta("id-1", "My Name", "Work", "a.md", "2024-01-01T00:00:00+00:00");
    m.description = "kept".to_string();
    m.use_count = 7;
    index.prompts.push(m);
    index.folders.push("Work".to_string());
    let files = vec![scan("Work", "a.md", Some("2024-02-01T00:00:00+00:00"))];
    let now = "2024-03-01T00:00:00+00:00".to_string();
    let changed = sync_index_with_filesystem(&mut index, &files, &now);
    assert!(changed);
    assert_eq!(index.prompts.len(), 1);
    assert_eq!(index.prompts[0].id, "id-1");
    assert_eq!(index.prompts[0].name, "My Name");
    assert_eq!(index.prompts[0].description, "kept");
    assert_eq!(index.prompts[0].use_count, 7);
    assert_eq!(index.prompts[0].updated, "2024-02-01T00:00:00+00:00");
    assert_eq!(index.prompts[0].created, "2024-01-01T00:00:00+00:00");
}

#[test]
fn sync_drops_entries_whose_file_is_gone() {
    let mut index = PromptIndex::default();
    index.prompts.push(meta("id-1", "A", "", "a.md", "2024-01-01T00:00:00+00:00"));
    index.prompts.push(meta("id-2", "B", "", "b.md", "2024-01-01T00:00:00+00:00"));
    let files = vec![scan("", "b.md", Some("2024-01-01T00:00:00+00:00"))];
    let now = "2024-03-01T00:00:00+00:00".to_string();
    let changed = sync_index_with_filesystem(&mut index, &files, &now);
    assert!(changed);
    assert_eq!(index.prompts.len(), 1);
    assert_eq!(index.prompts[0].id, "id-2");
}

#[test]
fn sync_is_idempotent_with_no_filesystem_change() {
    let mut index = PromptIndex::default();
    index.prompts.push(meta("id-1", "A", "Work", "a.md", "2024-01-01T00:00:00+00:00"));
    let files = vec![
        scan("", "loose.md", Some("2024-01-05T00:00:00+00:00")),
        scan("Work", "a.md", Some("2024-01-06T00:00:00+00:00")),
    ];
    let now = "2024-03-01T00:00:00+00:00".to_string();
    let first = sync_index_with_filesystem(&mut index, &files, &now);
    assert!(first);
    let snapshot: Vec<(String, String, String)> = index
        .prompts
        .iter()
        .map(|p| (p.id.clone(), p.folder.clone(), p.filename.clone()))
        .collect();
    let folders = index.folders.clone();
    let second = sync_index_with_filesystem(&mut index, &files, &now);
    assert!(!second);
    let after: Vec<(String, String, String)> = index
        .prompts
        .iter()
        .map(|p| (p.id.clone(), p.folder.clone(), p.filename.clone()))
        .collect();
    assert_eq!(snapshot, after);
    assert_eq!(folders, index.folders);
}

#[test]
fn sync_keeps_pairs_unique_and_folders_closed() {
    let mut index = PromptIndex::default();
    index.folders.push("Empty".to_string());
    index.folders.push("Empty".to_string());
    let files = vec![
        scan("Work", "a.md", None),
        scan("Work", "b.md", None),
        scan("Play", "a.md", None),
    ];
    let now = "2024-03-01T00:00:00+00:00".to_string();
    sync_index_with_filesystem(&mut index, &files, &now);
    for i in 0..index.prompts.len() {
        for j in 0..index.prompts.len() {
            if i != j {
                assert!(
                    index.prompts[i].folder != index.prompts[j].folder
                        || index.prompts[i].filename != index.prompts[j].filename
                );
            }
        }
        if !index.prompts[i].folder.is_empty() {
            assert!(index.folders.contains(&index.prompts[i].folder));
        }
    }
    // The duplicated explicitly-created folder is kept once.
    assert_eq!(
        index.folders,
        vec!["Empty".to_string(), "Work".to_string(), "Play".to_string()]
    );
    // A file's missing timestamp falls back to the current time.
    assert_eq!(index.prompts[0].updated, now);
}

#[test]
fn sync_absorbs_an_orphan_file_after_a_crash() {
    // A crash between the content write and the index save leaves an
    // orphan file; the next load synthesizes a fresh entry for it.
    let mut index = PromptIndex::default();
    index.prompts.push(meta("id-1", "A", "", "a.md", "2024-01-01T00:00:00+00:00"));
    let files = vec![
        scan("", "a.md", Some("2024-01-01T00:00:00+00:00")),
        scan("", "orphan.md", Some("2024-01-02T00:00:00+00:00")),
    ];
    let now = "2024-03-01T00:00:00+00:00".to_string();
    let changed = sync_index_with_filesystem(&mut index, &files, &now);
    assert!(changed);
    assert_eq!(index.prompts.len(), 2);
    assert_eq!(index.prompts[1].filename, "orphan.md");
    assert_eq!(index.prompts[1].name, "orphan");
    assert_eq!(index.prompts[1].id.len(), 36);
    assert_eq!(index.prompts[1].use_count, 0);
}

#[test]
fn filename_to_title_cleans_separators() {
    assert_eq!(filename_to_title("my_prompt-v2.md"), "my prompt v2");
    assert_eq!(filename_to_title("plain.md"), "plain");
    assert_eq!(filename_to_title("no_extension"), "no extension");
    assert_eq!(filename_to_title("___.md"), "Untitled");
    assert_eq!(filename_to_title(""), "untitled");
    assert_eq!(filename_to_title("a.b.md"), "a.b");
}

#[test]
fn add_folder_rejects_duplicates() {
    let mut index = PromptIndex::default();
    assert!(add_folder(&mut index, "Work".to_string()).is_ok());
    assert!(add_folder(&mut index, "Work".to_string()).is_err());
    assert_eq!(index.folders, vec!["Work".to_string()]);
}

#[test]
fn rename_folder_cascades_everywhere() {
    let mut index = PromptIndex::default();
    index.folders.push("Old".to_string());
    index.folders.push("Other".to_string());
    index.prompts.push(meta("id-1", "A", "Old", "a.md", "t1"));
    index.prompts.push(meta("id-2", "B", "Other", "b.md", "t1"));
    index.folder_meta = Some(vec![FolderMeta {
        name: "Old".to_string(),
        icon: Some("star".to_string()),
        color: None,
    }]);
    assert!(rename_folder(&mut index, "Old", "New").is_ok());
    assert_eq!(index.folders, vec!["New".to_string(), "Other".to_string()]);
    assert_eq!(index.prompts[0].folder, "New");
    assert_eq!(index.prompts[1].folder, "Other");
    let fm = index.folder_meta.as_ref().unwrap();
    assert_eq!(fm.len(), 1);
    assert_eq!(fm[0].name, "New");
    assert_eq!(fm[0].icon.as_deref(), Some("star"));
}

#[test]
fn rename_folder_rejects_conflict_and_unknown_source() {
    let mut index = PromptIndex::default();
    index.folders.push("A".to_string());
    index.folders.push("B".to_string());
    assert!(rename_folder(&mut index, "A", "B").is_err());
    assert!(rename_folder(&mut index, "Missing", "C").is_err());
    assert_eq!(index.folders, vec!["A".to_string(), "B".to_string()]);
}

#[test]
fn delete_folder_moves_documents_to_root() {
    let mut index = PromptIndex::default();
    index.folders.push("Gone".to_string());
    index.folders.push("Kept".to_string());
    index.prompts.push(meta("id-1", "A", "Gone", "a.md", "t1"));
    index.prompts.push(meta("id-2", "B", "Kept", "b.md", "t1"));
    index.folder_meta = Some(vec![FolderMeta {
        name: "Gone".to_string(),
        icon: None,
        color: None,
    }]);
    assert!(delete_folder(&mut index, "Gone").is_ok());
    assert_eq!(index.folders, vec!["Kept".to_string()]);
    assert_eq!(index.prompts.len(), 2);
    assert_eq!(index.prompts[0].folder, "");
    assert_eq!(index.prompts[1].folder, "Kept");
    assert!(index.folder_meta.as_ref().unwrap().is_empty());
}

#[test]
fn normalize_folder_joins_components() {
    assert_eq!(normalize_folder(&vec![]), "");
    assert_eq!(normalize_folder(&vec!["a".to_string()]), "a");
    assert_eq!(
        normalize_folder(&vec!["a".to_string(), "b".to_string(), "c".to_string()]),
        "a/b/c"
    );
}

#[test]
fn markdown_extension_is_matched_case_insensitively() {
    assert!(has_markdown_extension("a.md"));
    assert!(has_markdown_extension("a.MD"));
    assert!(has_markdown_extension("a.Md"));
    assert!(has_markdown_extension("archive.tar.md"));
    assert!(!has_markdown_extension("a.txt"));
    assert!(!has_markdown_extension("md"));
    assert!(!has_markdown_extension(".md"));
    assert!(!has_markdown_extension("a."));
}

#[test]
fn sort_scan_orders_by_folder_then_filename() {
    let files = vec![
        scan("b", "z.md", None),
        scan("a", "y.md", None),
        scan("", "x.md", None),
        scan("a", "b.md", None),
    ];
    let sorted = sort_scan(&files);
    let keys: Vec<String> = sorted
        .iter()
        .map(|s| format!("{}/{}", s.folder, s.filename))
        .collect();
    assert_eq!(keys, vec!["/x.md", "a/b.md", "a/y.md", "b/z.md"]);
}

#[test]
fn rename_folder_to_itself_is_a_conflict() {
    let mut index = PromptIndex::default();
    index.folders.push("A".to_string());
    assert!(rename_folder(&mut index, "A", "A").is_err());
}
