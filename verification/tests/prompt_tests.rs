use open_prompts::model::{PromptIndex, PromptMetadata};
use open_prompts::prompt_service::{
    apply_folder_rename, commit_create, commit_update, delete_folder_relocate, delete_prompt,
    ensure_unique_filename, find_by_id, get_prompt_path, plan_save, record_usage,
    sanitize_filename, validate_folder_rename, SavePlan,
};
use open_prompts::storage::StoragePaths;

fn paths() -> StoragePaths {
    StoragePaths {
        root: "/home/user/.openprompt".to_string(),
        prompts_dir: "/home/user/.openprompt/prompts".to_string(),
        index_path: "/home/user/.openprompt/index.json".to_string(),
        settings_path: "/home/user/.openprompt/settings.json".to_string(),
    }
}

fn meta(id: &str, name: &str, folder: &str, filename: &str) -> PromptMetadata {
    PromptMetadata {
        id: id.to_string(),
        name: name.to_string(),
        folder: folder.to_string(),
        description: String::new(),
        filename: filename.to_string(),
        use_count: 0,
        last_used: None,
        created: "t0".to_string(),
        updated: "t0".to_string(),
        icon: None,
        color: None,
    }
}

#[test]
fn prompt_path_joins_folder_and_filename() {
    let p = paths();
    assert_eq!(
        get_prompt_path(&p, "", "a.md"),
        "/home/user/.openprompt/prompts/a.md"
    );
    assert_eq!(
        get_prompt_path(&p, "Work", "a.md"),
        "/home/user/.openprompt/prompts/Work/a.md"
    );
}

#[test]
fn sanitize_strips_illegal_characters() {
    assert_eq!(sanitize_filename("My:File?"), "MyFile");
    assert_eq!(sanitize_filename("a<b>c\"d/e\\f|g*h"), "abcdefgh");
    assert_eq!(sanitize_filename("name.. "), "name");
    assert_eq!(sanitize_filename("tab\there"), "tabhere");
    assert_eq!(sanitize_filename(""), "untitled");
    assert_eq!(sanitize_filename("???"), "untitled");
}

#[test]
fn sanitize_defuses_reserved_device_names() {
    assert_eq!(sanitize_filename("CON"), "_CON");
    assert_eq!(sanitize_filename("con"), "_con");
    assert_eq!(sanitize_filename("Com5"), "_Com5");
    assert_eq!(sanitize_filename("LPT9.old"), "_LPT9.old");
    assert_eq!(sanitize_filename("CONTEXT"), "CONTEXT");
}

#[test]
fn sanitize_truncates_long_names() {
    let long: String = std::iter::repeat('x').take(300).collect();
    let out = sanitize_filename(&long);
    assert_eq!(out.chars().count(), 200);
}

#[test]
fn unique_filename_appends_counters_on_collisions() {
    let taken: Vec<String> = Vec::new();
    assert_eq!(ensure_unique_filename(&taken, "name"), "name.md");
    let taken = vec!["name.md".to_string()];
    assert_eq!(ensure_unique_filename(&taken, "name"), "name-1.md");
    let taken = vec!["name.md".to_string(), "name-1.md".to_string()];
    assert_eq!(ensure_unique_filename(&taken, "name"), "name-2.md");
}

#[test]
fn unique_filename_falls_back_to_an_identifier() {
    let mut taken = vec!["x.md".to_string()];
    for i in 1..1000 {
        taken.push(format!("x-{}.md", i));
    }
    let out = ensure_unique_filename(&taken, "x");
    assert!(out.starts_with("x-"));
    assert!(out.ends_with(".md"));
    assert_eq!(out.chars().count(), "x-.md".chars().count() + 36);
}

#[test]
fn plan_save_distinguishes_update_and_create() {
    let mut index = PromptIndex::default();
    index.prompts.push(meta("id-1", "A", "Work", "a.md"));
    match plan_save(&index, &meta("id-1", "A2", "Work", "a.md")) {
        SavePlan::Update { pos, move_folder } => {
            assert_eq!(pos, 0);
            assert!(!move_folder);
        }
        SavePlan::Create => panic!("expected update"),
    }
    match plan_save(&index, &meta("id-1", "A2", "Play", "a.md")) {
        SavePlan::Update { move_folder, .. } => assert!(move_folder),
        SavePlan::Create => panic!("expected update"),
    }
    match plan_save(&index, &meta("id-9", "B", "", "b.md")) {
        SavePlan::Create => {}
        SavePlan::Update { .. } => panic!("expected create"),
    }
}

#[test]
fn commit_create_registers_entry_and_folder() {
    let mut index = PromptIndex::default();
    let request = meta("", "New One", "Work", "");
    let stored = commit_create(&mut index, &request, &"new-one.md".to_string(), "t1");
    assert_eq!(stored.id.len(), 36);
    assert_eq!(stored.name, "New One");
    assert_eq!(stored.folder, "Work");
    assert_eq!(stored.filename, "new-one.md");
    assert_eq!(stored.created, "t1");
    assert_eq!(stored.updated, "t1");
    assert_eq!(index.prompts.len(), 1);
    assert_eq!(index.folders, vec!["Work".to_string()]);
    // A caller-chosen identifier is kept, and a known folder not re-added.
    let stored2 = commit_create(&mut index, &meta("my-id", "Two", "Work", ""), &"two.md".to_string(), "t2");
    assert_eq!(stored2.id, "my-id");
    assert_eq!(index.folders, vec!["Work".to_string()]);
    assert_eq!(index.prompts.len(), 2);
}

#[test]
fn commit_update_refreshes_fields() {
    let mut index = PromptIndex::default();
    let mut existing = meta("id-1", "Old Name", "Work", "old.md");
    existing.use_count = 3;
    index.prompts.push(existing);
    let mut request = meta("id-1", "New Name", "Play", "ignored.md");
    request.description = "described".to_string();
    let stored = commit_update(&mut index, 0, &request, Some("new.md".to_string()), "t9");
    assert_eq!(stored.name, "New Name");
    assert_eq!(stored.folder, "Play");
    assert_eq!(stored.description, "described");
    assert_eq!(stored.filename, "new.md");
    assert_eq!(stored.updated, "t9");
    assert_eq!(stored.created, "t0");
    assert_eq!(stored.use_count, 3);
    assert_eq!(index.prompts[0].filename, "new.md");
    // Without a move the stored file name stays.
    let stored2 = commit_update(&mut index, 0, &meta("id-1", "Again", "Play", "x"), None, "t10");
    assert_eq!(stored2.filename, "new.md");
}

#[test]
fn create_then_delete_leaves_no_entry() {
    let mut index = PromptIndex::default();
    index.prompts.push(meta("other", "Other", "", "other.md"));
    let stored = commit_create(&mut index, &meta("", "Fresh", "", ""), &"fresh.md".to_string(), "t1");
    assert_eq!(index.prompts.len(), 2);
    let removed = delete_prompt(&mut index, &stored.id).expect("delete should succeed");
    assert_eq!(removed.filename, "fresh.md");
    assert_eq!(index.prompts.len(), 1);
    assert!(find_by_id(&index, &stored.id).is_none());
    assert_eq!(index.prompts[0].id, "other");
}

#[test]
fn delete_prompt_rejects_unknown_id() {
    let mut index = PromptIndex::default();
    assert!(delete_prompt(&mut index, "nope").is_err());
}

#[test]
fn record_usage_counts_and_remembers() {
    let mut index = PromptIndex::default();
    index.prompts.push(meta("id-1", "A", "", "a.md"));
    assert!(record_usage(&mut index, "id-1", "t5").is_ok());
    assert_eq!(index.prompts[0].use_count, 1);
    assert_eq!(index.prompts[0].last_used.as_deref(), Some("t5"));
    assert!(record_usage(&mut index, "id-1", "t6").is_ok());
    assert_eq!(index.prompts[0].use_count, 2);
    assert_eq!(index.prompts[0].last_used.as_deref(), Some("t6"));
    assert!(record_usage(&mut index, "missing", "t7").is_err());
}

#[test]
fn folder_rename_validation() {
    assert_eq!(validate_folder_rename("A", "A"), Ok(false));
    assert_eq!(validate_folder_rename("A", "B"), Ok(true));
    assert!(validate_folder_rename("A", "").is_err());
    assert_eq!(validate_folder_rename("", ""), Ok(false));
}

#[test]
fn folder_rename_cascade_refreshes_timestamps() {
    let mut index = PromptIndex::default();
    index.folders.push("Old".to_string());
    index.prompts.push(meta("id-1", "A", "Old", "a.md"));
    index.prompts.push(meta("id-2", "B", "Other", "b.md"));
    apply_folder_rename(&mut index, "Old", "New", "t3");
    assert_eq!(index.folders, vec!["New".to_string()]);
    assert_eq!(index.prompts[0].folder, "New");
    assert_eq!(index.prompts[0].updated, "t3");
    assert_eq!(index.prompts[1].folder, "Other");
    assert_eq!(index.prompts[1].updated, "t0");
}

#[test]
fn folder_delete_relocates_documents_to_root() {
    let mut index = PromptIndex::default();
    index.folders.push("Gone".to_string());
    index.prompts.push(meta("id-1", "a", "Gone", "a.md"));
    index.prompts.push(meta("id-2", "b", "Gone", "b.md"));
    index.prompts.push(meta("id-3", "c", "Kept", "c.md"));
    // The root already holds a file named like the first document.
    let root_taken = vec!["a.md".to_string()];
    let moves = delete_folder_relocate(&mut index, "Gone", root_taken, "t4")
        .expect("delete should succeed");
    assert_eq!(moves.len(), 2);
    assert_eq!(moves[0].from, "a.md");
    assert_eq!(moves[0].to, "a-1.md");
    assert_eq!(moves[1].from, "b.md");
    assert_eq!(moves[1].to, "b.md");
    assert_eq!(index.prompts.len(), 3);
    assert_eq!(index.prompts[0].folder, "");
    assert_eq!(index.prompts[0].filename, "a-1.md");
    assert_eq!(index.prompts[0].updated, "t4");
    assert_eq!(index.prompts[1].folder, "");
    assert_eq!(index.prompts[1].filename, "b.md");
    assert_eq!(index.prompts[2].folder, "Kept");
    assert!(index.folders.is_empty());
}

#[test]
fn folder_delete_rejects_the_root() {
    let mut index = PromptIndex::default();
    assert!(delete_folder_relocate(&mut index, "", Vec::new(), "t0").is_err());
}

#[test]
fn map_err_renders_displayable_errors() {
    assert_eq!(open_prompts::map_err("boom"), "boom");
    assert_eq!(open_prompts::map_err(7), "7");
}

#[test]
fn delete_prompt_drops_every_entry_with_the_id() {
    let mut index = PromptIndex::default();
    index.prompts.push(meta("dup", "A", "", "a.md"));
    index.prompts.push(meta("other", "B", "", "b.md"));
    index.prompts.push(meta("dup", "C", "", "c.md"));
    let removed = delete_prompt(&mut index, "dup").expect("delete should succeed");
    assert_eq!(removed.name, "A");
    assert_eq!(index.prompts.len(), 1);
    assert_eq!(index.prompts[0].id, "other");
}

#[test]
fn folder_delete_targets_avoid_each_other() {
    // Two documents with the same display name whose files both collide
    // at the root: each relocation must also avoid the earlier target.
    let mut index = PromptIndex::default();
    index.folders.push("Gone".to_string());
    let mut first = meta("id-1", "a", "Gone", "x.md");
    first.name = "a".to_string();
    let mut second = meta("id-2", "a", "Gone", "y.md");
    second.name = "a".to_string();
    index.prompts.push(first);
    index.prompts.push(second);
    let root_taken = vec!["x.md".to_string(), "y.md".to_string(), "a.md".to_string()];
    let moves = delete_folder_relocate(&mut index, "Gone", root_taken, "t1")
        .expect("delete should succeed");
    assert_eq!(moves.len(), 2);
    assert_eq!(moves[0].to, "a-1.md");
    assert_eq!(moves[1].to, "a-2.md");
    assert_eq!(index.prompts[0].filename, "a-1.md");
    assert_eq!(index.prompts[1].filename, "a-2.md");
}
