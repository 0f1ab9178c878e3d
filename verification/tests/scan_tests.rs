use lord_of_the_files::scan::{collect_scan, entry_from_parts, ScanCandidate};

fn file(path: &str, name: &str) -> ScanCandidate {
    ScanCandidate {
        key: path.to_string(),
        entry: Some(entry_from_parts(path, name, Some("/t".to_string()), false, 5, Some(7))),
    }
}

fn dir(path: &str, name: &str) -> ScanCandidate {
    ScanCandidate {
        key: path.to_string(),
        entry: Some(entry_from_parts(path, name, Some("/t".to_string()), true, 4096, None)),
    }
}

#[test]
fn entries_split_names_and_zero_directories() {
    let e = entry_from_parts("/t/archive.tar.gz", "archive.tar.gz", Some("/t".to_string()), false, 12, Some(3));
    assert_eq!(e.id, "/t/archive.tar.gz");
    assert_eq!(e.stem, "archive.tar");
    assert_eq!(e.ext, "gz");
    assert_eq!(e.size, 12);
    assert_eq!(e.modified, Some(3));
    let d = entry_from_parts("/t/sub.d", "sub.d", Some("/t".to_string()), true, 4096, None);
    assert_eq!(d.stem, "sub.d");
    assert_eq!(d.ext, "");
    assert_eq!(d.size, 0);
    let dot = entry_from_parts("/t/.bashrc", ".bashrc", None, false, 1, None);
    assert_eq!(dot.stem, ".bashrc");
    assert_eq!(dot.ext, "");
    assert_eq!(dot.parent_dir, "");
}

#[test]
fn scan_deduplicates_repeated_paths() {
    let out = collect_scan(vec![file("/t/a.txt", "a.txt"), file("/t/a.txt", "a.txt")], false);
    assert_eq!(out.len(), 1);
}

#[test]
fn scan_directories_only_when_asked() {
    let cands = || vec![dir("/t/sub", "sub"), file("/t/sub/n.txt", "n.txt"), dir("/t", "t")];
    let without = collect_scan(cands(), false);
    assert_eq!(without.len(), 1);
    assert!(without.iter().all(|e| !e.is_dir));
    let with = collect_scan(cands(), true);
    assert_eq!(with.iter().filter(|e| e.is_dir).count(), 2);
}

#[test]
fn scan_skips_unreadable_paths() {
    let out = collect_scan(
        vec![ScanCandidate { key: "/t/gone".to_string(), entry: None }, file("/t/b.txt", "b.txt")],
        false,
    );
    assert_eq!(out.len(), 1);
    assert_eq!(out[0].stem, "b");
}
