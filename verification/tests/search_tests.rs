use open_prompts::model::{PromptIndex, PromptMetadata};
use open_prompts::search_service::{search_prompts, sort_by_recency};
use open_prompts::seed_service::seed_if_needed;
use open_prompts::settings::AppSettings;

fn entry(name: &str, description: &str, folder: &str) -> PromptMetadata {
    PromptMetadata {
        id: name.to_string(),
        name: name.to_string(),
        folder: folder.to_string(),
        description: description.to_string(),
        filename: format!("{}.md", name),
        use_count: 0,
        last_used: None,
        created: "2024-01-01T00:00:00+00:00".to_string(),
        updated: "2024-01-01T00:00:00+00:00".to_string(),
        icon: None,
        color: None,
    }
}

#[test]
fn query_ranks_prefix_matches_first_and_drops_non_matches() {
    let prompts = vec![
        entry("Summarize", "", ""),
        entry("Summary Report", "", ""),
        entry("Critical Thinking", "", ""),
    ];
    let found = search_prompts(&prompts, "sum");
    let names: Vec<&str> = found.iter().map(|p| p.name.as_str()).collect();
    assert_eq!(names, vec!["Summarize", "Summary Report"]);
}

#[test]
fn query_is_matched_case_insensitively() {
    let prompts = vec![entry("Summarize", "", ""), entry("Critical Thinking", "", "")];
    let found = search_prompts(&prompts, "SUM");
    assert_eq!(found.len(), 1);
    assert_eq!(found[0].name, "Summarize");
}

#[test]
fn query_matches_description_and_folder_too() {
    let prompts = vec![
        entry("Alpha", "weekly planning notes", ""),
        entry("Beta", "", "Planning"),
        entry("Gamma", "", ""),
    ];
    let found = search_prompts(&prompts, "plan");
    let names: Vec<&str> = found.iter().map(|p| p.name.as_str()).collect();
    assert_eq!(names.len(), 2);
    assert!(names.contains(&"Alpha"));
    assert!(names.contains(&"Beta"));
}

#[test]
fn empty_query_returns_recency_order() {
    let mut used_recently = entry("Used Recently", "", "");
    used_recently.last_used = Some("2024-03-01T00:00:00+00:00".to_string());
    let mut used_long_ago = entry("Used Long Ago", "", "");
    used_long_ago.last_used = Some("2024-01-15T00:00:00+00:00".to_string());
    let mut updated_late = entry("Updated Late", "", "");
    updated_late.updated = "2024-02-20T00:00:00+00:00".to_string();
    let updated_early = entry("Updated Early", "", "");
    let prompts = vec![updated_early, used_long_ago, updated_late, used_recently];
    let found = search_prompts(&prompts, "");
    let names: Vec<&str> = found.iter().map(|p| p.name.as_str()).collect();
    assert_eq!(
        names,
        vec!["Used Recently", "Used Long Ago", "Updated Late", "Updated Early"]
    );
}

#[test]
fn whitespace_query_counts_as_empty() {
    let mut a = entry("A", "", "");
    a.last_used = Some("2024-03-01T00:00:00+00:00".to_string());
    let b = entry("B", "", "");
    let prompts = vec![b, a];
    let found = search_prompts(&prompts, "   \t ");
    assert_eq!(found[0].name, "A");
    assert_eq!(found.len(), 2);
}

#[test]
fn contiguous_matches_outscore_scattered_ones() {
    // Both names contain the query letters in order, but only one as a
    // contiguous run; neither name starts with the query.
    let prompts = vec![
        entry("x-d-o-c-s", "", ""),
        entry("my docs", "", ""),
    ];
    let found = search_prompts(&prompts, "docs");
    assert_eq!(found.len(), 2);
    assert_eq!(found[0].name, "my docs");
}

#[test]
fn sort_by_recency_is_stable_for_ties() {
    let a = entry("First", "", "");
    let b = entry("Second", "", "");
    let prompts = vec![a, b];
    let found = sort_by_recency(&prompts);
    let names: Vec<&str> = found.iter().map(|p| p.name.as_str()).collect();
    assert_eq!(names, vec!["First", "Second"]);
}

#[test]
fn seed_runs_once_on_an_empty_index() {
    let mut index = PromptIndex::default();
    let to_create = seed_if_needed(&mut index).expect("fresh index is owed samples");
    assert!(index.seeded);
    assert_eq!(to_create.len(), 3);
    assert_eq!(to_create[0].meta.name, "Summarize");
    assert_eq!(to_create[0].meta.folder, "Writing");
    assert_eq!(to_create[0].meta.icon.as_deref(), Some("file-text"));
    assert!(!to_create[0].content.is_empty());
    assert_eq!(to_create[1].meta.name, "Markov Chain State");
    assert_eq!(to_create[1].meta.folder, "AnalyzeCode");
    assert!(!to_create[1].content.is_empty());
    assert_eq!(to_create[2].meta.name, "Critical Thinking");
    assert_eq!(to_create[2].meta.description, "Generate alternatives and perspectives");
    assert!(!to_create[2].content.is_empty());
    // A seeded index is left alone.
    assert!(seed_if_needed(&mut index).is_none());
}

#[test]
fn seed_only_marks_an_index_that_already_has_documents() {
    let mut index = PromptIndex::default();
    index.prompts.push(entry("Existing", "", ""));
    let to_create = seed_if_needed(&mut index).expect("unseeded index still gets marked");
    assert!(to_create.is_empty());
    assert!(index.seeded);
    assert_eq!(index.prompts.len(), 1);
}

#[test]
fn settings_defaults_match_a_fresh_installation() {
    let s = AppSettings::default();
    assert!(!s.general.auto_launch);
    assert_eq!(s.general.hotkey, "CommandOrControl+8");
    assert!(s.general.editor_always_on_top);
    assert!(!s.general.welcome_screen_dismissed);
    assert_eq!(s.appearance.theme, "dark");
    assert_eq!(s.appearance.accent_color, "avocado");
}

#[test]
fn equal_scores_keep_input_order_both_ways() {
    // Both names start with the query and match at the same positions,
    // so their scores tie; the tie must keep the input order.
    let a = entry("Summarize One", "", "");
    let b = entry("Summarize Two", "", "");
    let found = search_prompts(&vec![a, b], "sum");
    let names: Vec<&str> = found.iter().map(|p| p.name.as_str()).collect();
    assert_eq!(names, vec!["Summarize One", "Summarize Two"]);
    let b2 = entry("Summarize Two", "", "");
    let a2 = entry("Summarize One", "", "");
    let found2 = search_prompts(&vec![b2, a2], "sum");
    let names2: Vec<&str> = found2.iter().map(|p| p.name.as_str()).collect();
    assert_eq!(names2, vec!["Summarize Two", "Summarize One"]);
}
