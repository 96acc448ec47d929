use nx_hash_plan::model::PlanError;
use nx_hash_plan::outputs::{expand_outputs, get_files_for_outputs, FsEntry, FsSnapshot};

fn entry(path: &str, is_dir: bool) -> FsEntry {
    FsEntry { path: path.to_string(), is_dir }
}

fn fixture_entries() -> Vec<FsEntry> {
    vec![
        entry("test.txt", false),
        entry("foo.txt", false),
        entry("bar.txt", false),
        entry("baz", true),
        entry("baz/qux.txt", false),
        entry("nested", true),
        entry("nested/deeply", true),
        entry("nested/deeply/nx.darwin-arm64.node", false),
        entry("folder", true),
        entry("folder/nested-folder", false),
        entry("packages", true),
        entry("packages/nx", true),
        entry("packages/nx/src", true),
        entry("packages/nx/src/native", true),
        entry("packages/nx/src/native/nx.darwin-arm64.node", false),
        entry("multi", true),
        entry("multi/file.js", false),
        entry("multi/src.ts", false),
        entry("multi/file.map", false),
        entry("multi/file.txt", false),
    ]
}

/// A snapshot of the fixture tree used across the expansion tests: nothing
/// in it is ignore-filtered, so the walked and present views agree.
fn setup_fs() -> FsSnapshot {
    FsSnapshot {
        walked: fixture_entries(),
        present: fixture_entries(),
    }
}

/// An output that exists on disk but is ignore-filtered from the walk (the
/// common case for build outputs) is still kept verbatim: existence is a
/// direct probe, not walk membership.
#[test]
fn expand_outputs_keeps_ignored_but_existing_entries() {
    let mut present = fixture_entries();
    present.push(entry("dist", true));
    present.push(entry("dist/out.js", false));
    let temp = FsSnapshot {
        walked: fixture_entries(),
        present,
    };
    let entries = vec!["dist/out.js".to_string()];
    let result = expand_outputs(&temp, &entries).unwrap();
    assert_eq!(result, vec!["dist/out.js"]);
}

#[test]
fn should_expand_outputs() {
    let temp = setup_fs();
    let entries = vec![
        "packages/nx/src/native/*.node".to_string(),
        "folder/nested-folder".to_string(),
        "test.txt".to_string(),
    ];
    let mut result = expand_outputs(&temp, &entries).unwrap();
    result.sort();
    assert_eq!(
        result,
        vec![
            "folder/nested-folder",
            "packages/nx/src/native/nx.darwin-arm64.node",
            "test.txt"
        ]
    );
}

#[test]
fn should_handle_multiple_extensions() {
    let temp = setup_fs();
    let entries = vec!["multi/*.{js,map,ts}".to_string()];
    let mut result = expand_outputs(&temp, &entries).unwrap();
    result.sort();
    assert_eq!(
        result,
        vec!["multi/file.js", "multi/file.map", "multi/src.ts"]
    );
}

#[test]
fn expand_outputs_keeps_literal_entries_without_walking() {
    let temp = setup_fs();
    let entries = vec!["test.txt".to_string(), "baz".to_string()];
    let result = expand_outputs(&temp, &entries).unwrap();
    assert_eq!(result, vec!["test.txt", "baz"]);
}

#[test]
fn expand_outputs_rejects_invalid_glob() {
    let temp = setup_fs();
    let entries = vec!["foo[".to_string()];
    let result = expand_outputs(&temp, &entries);
    assert_eq!(result, Err(PlanError::InvalidGlobPattern));
}

#[test]
fn files_for_outputs_expands_directories_to_files() {
    let temp = setup_fs();
    let entries = vec!["nested".to_string()];
    let result = get_files_for_outputs(&temp, &entries).unwrap();
    assert_eq!(result, vec!["nested/deeply/nx.darwin-arm64.node"]);
}

#[test]
fn files_for_outputs_mixes_files_globs_and_directories_sorted() {
    let temp = setup_fs();
    let entries = vec![
        "baz".to_string(),
        "test.txt".to_string(),
        "multi/*.{js,ts}".to_string(),
    ];
    let result = get_files_for_outputs(&temp, &entries).unwrap();
    assert_eq!(
        result,
        vec!["baz/qux.txt", "multi/file.js", "multi/src.ts", "test.txt"]
    );
}

#[test]
fn files_for_outputs_keeps_duplicate_entries() {
    let temp = setup_fs();
    let entries = vec!["test.txt".to_string(), "test.txt".to_string()];
    let result = get_files_for_outputs(&temp, &entries).unwrap();
    assert_eq!(result, vec!["test.txt", "test.txt"]);
}

#[test]
fn files_for_outputs_rejects_invalid_glob() {
    let temp = setup_fs();
    let entries = vec!["{oops".to_string()];
    let result = get_files_for_outputs(&temp, &entries);
    assert_eq!(result, Err(PlanError::InvalidGlobPattern));
}
