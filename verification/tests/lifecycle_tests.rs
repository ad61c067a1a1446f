use hybrid_search::lifecycle::{
    filter_by_extension, is_model_valid, reconcile_plan, vector_index_due, workspaces_to_clean,
    ModelDirProbe,
};

fn strings(items: &[&str]) -> Vec<String> {
    items.iter().map(|s| s.to_string()).collect()
}

#[test]
fn reconcile_diffs_current_against_embedded() {
    let current = strings(&["/w/a.md", "/w/b.md", "/w/c.md"]);
    let embedded = strings(&["/w/b.md", "/w/c.md", "/w/d.md"]);
    let plan = reconcile_plan(&current, &embedded);
    assert_eq!(plan.to_delete, strings(&["/w/d.md"]));
    assert_eq!(plan.to_embed, strings(&["/w/a.md"]));
}

#[test]
fn reconcile_twice_without_changes_plans_nothing() {
    let current = strings(&["/w/a.md", "/w/b.md"]);
    let embedded = strings(&["/w/b.md"]);

    // first pass: embed what is new, then record the current set
    let first = reconcile_plan(&current, &embedded);
    assert_eq!(first.to_embed, strings(&["/w/a.md"]));
    let recorded = current.clone();

    // second pass with no filesystem change: zero deletes, zero embeds
    let second = reconcile_plan(&current, &recorded);
    assert_eq!(second.to_delete.len(), 0);
    assert_eq!(second.to_embed.len(), 0);
}

#[test]
fn extension_allow_list_keeps_only_listed_extensions() {
    let files = strings(&["/w/a.md", "/w/b.rs", "/w/dir.v/c", "/w/noext", "/w/x.tar.gz"]);
    let allowed = strings(&["md", "gz"]);
    let kept = filter_by_extension(&files, &allowed);
    assert_eq!(kept, strings(&["/w/a.md", "/w/x.tar.gz"]));
}

#[test]
fn workspaces_with_missing_roots_are_cleaned() {
    let names = strings(&["one", "two", "three"]);
    let alive = vec![true, false, true];
    let stale = workspaces_to_clean(&names, &alive);
    assert_eq!(stale, strings(&["two"]));
}

#[test]
fn vector_index_waits_for_minimum_rows() {
    assert!(!vector_index_due(0));
    assert!(!vector_index_due(255));
    assert!(vector_index_due(256));
    assert!(vector_index_due(10_000));
}

#[test]
fn model_directory_is_valid_only_when_complete() {
    let complete = ModelDirProbe {
        path_exists: true,
        has_blobs: true,
        has_refs: true,
        has_snapshots: true,
        has_main_pointer: true,
    };
    assert!(is_model_valid(&complete));

    let missing_pointer = ModelDirProbe { has_main_pointer: false, ..complete };
    assert!(!is_model_valid(&missing_pointer));
    let missing_dir = ModelDirProbe { has_blobs: false, ..complete };
    assert!(!is_model_valid(&missing_dir));
    let absent = ModelDirProbe { path_exists: false, ..complete };
    assert!(!is_model_valid(&absent));
}
