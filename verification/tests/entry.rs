use fsearch_core::entry::Entry;
use fsearch_core::index::{index_build_from_paths, index_new, FileRecord, Index};
use fsearch_core::search::index_list_entries;

fn entry_for(id: u64, path: &str) -> Entry {
    let name = path.rsplit('/').next().unwrap_or("").to_string();
    Entry::new(id, name, path.to_string(), 0, 0)
}

#[test]
fn entry_nfkc_and_lowercase_normalization() {
    // the ligature U+FB01 becomes "fi" under NFKC
    let e = entry_for(1, "/tmp/\u{FB01}file.txt");
    assert!(e.normalized.contains("fi"), "normalized='{}'", e.normalized);
}

#[test]
fn entry_case_fold_example() {
    let e = entry_for(2, "/tmp/Åfile.txt");
    assert!(
        e.normalized.contains("å")
            || e.normalized.contains("åfile")
            || e.normalized.contains("åfile.txt"),
        "normalized='{}'",
        e.normalized
    );
}

#[test]
fn normalization_nfkc_and_lowercase_normalization() {
    let e = entry_for(1, "/tmp/ﬁfile.txt");
    assert!(e.normalized.contains("fi"));
}

#[test]
fn normalization_case_fold_example() {
    let e = entry_for(2, "/tmp/Åfile.txt");
    assert!(
        e.normalized.contains("å")
            || e.normalized.contains("åfile")
            || e.normalized.contains("åfile.txt")
    );
}

#[test]
fn entry_fields_and_exact_normalization() {
    let e = Entry::new(7, "\u{FB01}LE.TXT".to_string(), "/d/\u{FB01}LE.TXT".to_string(), 12, 34);
    assert_eq!(e.id, 7);
    assert_eq!(e.name, "\u{FB01}LE.TXT");
    assert_eq!(e.path, "/d/\u{FB01}LE.TXT");
    assert_eq!(e.size, 12);
    assert_eq!(e.mtime, 34);
    assert_eq!(e.normalized, "file.txt");
    let c = e.clone();
    assert_eq!(c.normalized, "file.txt");
    assert_eq!(c.id, 7);
}

fn file(name: &str, path: &str, size: u64) -> FileRecord {
    FileRecord { name: name.to_string(), path: path.to_string(), size, mtime: 5 }
}

#[test]
fn index_assigns_ascending_ids_from_one() {
    let mut idx = Index::new();
    assert_eq!(idx.len(), 0);
    idx.build_from_paths(vec![file("a.txt", "/x/a.txt", 1), file("B.txt", "/x/B.txt", 2)]);
    idx.build_from_paths(vec![file("c", "/x/c", 3)]);
    assert_eq!(idx.len(), 3);
    let ids: Vec<u64> = idx.entries().iter().map(|e| e.id).collect();
    assert_eq!(ids, vec![1, 2, 3]);
    assert_eq!(idx.entries()[1].normalized, "b.txt");
    assert_eq!(idx.entries()[2].size, 3);
}

#[test]
fn index_free_functions() {
    let empty = index_new();
    assert_eq!(empty.len(), 0);
    assert!(fsearch_core::init());
    let idx = index_build_from_paths(vec![file("a.txt", "/x/a.txt", 1), file("b", "/x/b", 2)]);
    let listed = index_list_entries(&idx);
    assert_eq!(listed.len(), 2);
    assert_eq!(listed[0].id, 1);
    assert_eq!(listed[0].name, "a.txt");
    assert_eq!(listed[0].path, "/x/a.txt");
    assert_eq!(listed[0].size, 1);
    assert_eq!(listed[0].mtime, 5);
    assert_eq!(listed[0].highlights, "");
    assert_eq!(listed[1].id, 2);
}
