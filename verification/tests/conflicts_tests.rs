use lord_of_the_files::conflicts::{annotate, parent_dir_of, row_targets, validate_name};
use lord_of_the_files::types::{FileEntry, PreviewRow, RowStatus};

fn entry(id: &str, parent_dir: &str) -> FileEntry {
    let path = format!("{parent_dir}/{id}");
    FileEntry {
        id: id.to_string(),
        path,
        parent_dir: parent_dir.to_string(),
        stem: id.to_string(),
        ext: String::new(),
        is_dir: false,
        size: 0,
        modified: None,
    }
}

fn row(id: &str, original: &str, new_name: &str, status: RowStatus) -> PreviewRow {
    PreviewRow {
        id: id.to_string(),
        original: original.to_string(),
        new_name: new_name.to_string(),
        status,
        message: None,
    }
}

/// Whether each row's destination (as the library computes it) is among the paths that
/// exist on the simulated disk.
fn disk_flags(entries: &Vec<FileEntry>, rows: &Vec<PreviewRow>, on_disk: &[&str]) -> Vec<bool> {
    row_targets(entries, rows).iter().map(|t| on_disk.iter().any(|p| *p == t.as_str())).collect()
}

fn run_annotate(entries: &Vec<FileEntry>, rows: &mut Vec<PreviewRow>, on_disk: &[&str]) {
    let exists = disk_flags(entries, rows, on_disk);
    annotate(entries, rows, &exists);
}

#[test]
fn row_targets_join_parent_and_new_name() {
    let entries = vec![entry("a.txt", "/data")];
    let rows = vec![row("a.txt", "a.txt", "b.txt", RowStatus::Changed), row("zz", "zz", "c", RowStatus::Changed)];
    let t = row_targets(&entries, &rows);
    assert_eq!(t, vec!["/data/b.txt".to_string(), "c".to_string()]);
    assert_eq!(parent_dir_of(&entries, &"a.txt".to_string()), "/data");
}

#[test]
fn validate_name_empty() {
    assert_eq!(validate_name(""), Some("Name is empty".to_string()));
    assert_eq!(validate_name("   "), Some("Name is empty".to_string()));
}

#[test]
fn validate_name_each_invalid_char() {
    for c in ['<', '>', ':', '"', '/', '\\', '|', '?', '*'] {
        let name = format!("file{c}name.txt");
        let msg = validate_name(&name);
        assert!(
            msg.as_deref().is_some_and(|m| m.contains("invalid character")),
            "expected invalid-char message for {c:?}, got {msg:?}"
        );
    }
}

#[test]
fn validate_name_control_character() {
    assert_eq!(
        validate_name("file\u{0007}.txt"),
        Some("Name contains a control character".to_string())
    );
}

#[test]
fn validate_name_trailing_space() {
    assert_eq!(validate_name("file.txt "), Some("Name ends with a space or dot".to_string()));
}

#[test]
fn validate_name_trailing_dot() {
    assert_eq!(validate_name("file."), Some("Name ends with a space or dot".to_string()));
}

#[test]
fn validate_name_valid_returns_none() {
    assert_eq!(validate_name("file.txt"), None);
}

#[test]
fn annotate_intra_batch_case_insensitive_collision() {
    let entries = vec![entry("a.txt", "/dir"), entry("b.txt", "/dir")];
    let mut rows = vec![
        row("a.txt", "a.txt", "Foo.txt", RowStatus::Changed),
        row("b.txt", "b.txt", "foo.txt", RowStatus::Changed),
    ];
    run_annotate(&entries, &mut rows, &[]);
    assert_eq!(rows[0].status, RowStatus::Conflict);
    assert_eq!(rows[1].status, RowStatus::Conflict);
}

#[test]
fn annotate_unicode_case_insensitive_collision() {
    let entries = vec![entry("a.txt", "/dir"), entry("b.txt", "/dir")];
    let mut rows = vec![
        row("a.txt", "a.txt", "CAFÉ.txt", RowStatus::Changed),
        row("b.txt", "b.txt", "café.txt", RowStatus::Changed),
    ];
    run_annotate(&entries, &mut rows, &[]);
    assert_eq!(rows[0].status, RowStatus::Conflict);
    assert_eq!(rows[1].status, RowStatus::Conflict);
}

#[test]
fn annotate_does_not_detect_nfc_nfd_normalization_collisions() {
    // Precomposed é (NFC) and "e" + combining acute (NFD) render alike but differ as
    // strings; with no Unicode normalization they are not flagged as colliding.
    let nfc_name = "caf\u{00E9}.txt";
    let nfd_name = "cafe\u{0301}.txt";
    let entries = vec![entry("a.txt", "/dir"), entry("b.txt", "/dir")];
    let mut rows = vec![
        row("a.txt", "a.txt", nfc_name, RowStatus::Changed),
        row("b.txt", "b.txt", nfd_name, RowStatus::Changed),
    ];
    run_annotate(&entries, &mut rows, &[]);
    assert_eq!(rows[0].status, RowStatus::Changed);
    assert_eq!(rows[1].status, RowStatus::Changed);
}

#[test]
fn annotate_changed_collides_with_unchanged_sibling() {
    let entries = vec![entry("a.txt", "/dir"), entry("foo.txt", "/dir")];
    let mut rows = vec![
        row("a.txt", "a.txt", "foo.txt", RowStatus::Changed),
        row("foo.txt", "foo.txt", "foo.txt", RowStatus::Unchanged),
    ];
    run_annotate(&entries, &mut rows, &[]);
    assert_eq!(rows[0].status, RowStatus::Conflict);
    assert_eq!(rows[1].status, RowStatus::Unchanged);
}

#[test]
fn annotate_preexisting_on_disk_collision() {
    // "/data/existing.txt" is on disk and is not part of the batch.
    let entries = vec![entry("a.txt", "/data")];
    let mut rows = vec![row("a.txt", "a.txt", "existing.txt", RowStatus::Changed)];
    run_annotate(&entries, &mut rows, &["/data/existing.txt", "/data/a.txt"]);
    assert_eq!(rows[0].status, RowStatus::Conflict);
    assert_eq!(rows[0].message.as_deref(), Some("A file with this name already exists"));
}

#[test]
fn annotate_batch_orig_exemption_not_flagged() {
    // b.txt exists on disk (it's entry B's original name) and B is moving away.
    let entries = vec![entry("a.txt", "/data"), entry("b.txt", "/data")];
    let mut rows = vec![
        row("a.txt", "a.txt", "b.txt", RowStatus::Changed),
        row("b.txt", "b.txt", "a.txt", RowStatus::Changed),
    ];
    run_annotate(&entries, &mut rows, &["/data/b.txt"]);
    // Both rename onto each other's original name (a swap); neither is flagged as a
    // pre-existing file, since both original paths are in the batch.
    assert_eq!(rows[0].status, RowStatus::Changed);
    assert_eq!(rows[1].status, RowStatus::Changed);
}
