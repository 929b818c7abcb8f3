use rust_zip_archive::archive::EntryInfo;
use rust_zip_archive::launch::{launch_intent, Launch, PathProbe};
use rust_zip_archive::tree::children;

fn present_file(head: &[u8]) -> PathProbe {
    PathProbe { exists: true, is_file: true, head: Some(head.to_vec()) }
}

#[test]
fn single_archive_opens() {
    // Minimal valid empty zip (PK end-of-central-directory record).
    let eocd = [
        0x50, 0x4B, 0x05, 0x06, 0, 0, 0, 0, 0, 0, 0, 0, 0, 0, 0, 0, 0, 0, 0, 0, 0, 0,
    ];
    let args = vec!["rza-gui".to_string(), "/tmp/a.zip".to_string()];
    let probes = vec![PathProbe { exists: false, is_file: false, head: None }, present_file(&eocd[..6])];
    assert!(matches!(launch_intent(&args, &probes), Launch::Open(_)));
}

#[test]
fn multiple_paths_stage() {
    let args = vec!["rza-gui".to_string(), "/tmp/a.txt".to_string(), "/tmp/b.txt".to_string()];
    let probes = vec![
        PathProbe { exists: false, is_file: false, head: None },
        present_file(b"a"),
        present_file(b"b"),
    ];
    match launch_intent(&args, &probes) {
        Launch::Stage(v) => assert_eq!(v.len(), 2),
        _ => panic!("expected Stage"),
    }
}

#[test]
fn no_args_is_empty() {
    assert!(matches!(launch_intent(&["rza-gui".to_string()], &[]), Launch::Empty));
}

#[test]
fn missing_paths_are_ignored() {
    let args = vec!["rza-gui".to_string(), "/nope".to_string(), "/tmp/a.txt".to_string()];
    let probes = vec![
        PathProbe { exists: false, is_file: false, head: None },
        PathProbe { exists: false, is_file: false, head: None },
        present_file(b"text"),
    ];
    match launch_intent(&args, &probes) {
        Launch::Stage(v) => assert_eq!(v, vec!["/tmp/a.txt".to_string()]),
        _ => panic!("expected Stage"),
    }
}

#[test]
fn an_unrecognised_single_file_is_staged() {
    let args = vec!["rza-gui".to_string(), "/tmp/notes.txt".to_string()];
    let probes = vec![PathProbe { exists: false, is_file: false, head: None }, present_file(b"hello")];
    assert!(matches!(launch_intent(&args, &probes), Launch::Stage(_)));
}

fn e(name: &str, is_dir: bool) -> EntryInfo {
    EntryInfo { name: name.to_string(), size: 10, compressed: 5, is_dir }
}

#[test]
fn root_lists_top_level_folders_first() {
    let entries = vec![e("top.txt", false), e("a/b.txt", false), e("a/c/d.txt", false)];
    let kids = children(&entries, "");
    let names: Vec<_> = kids.iter().map(|n| (n.name.as_str(), n.is_dir)).collect();
    assert_eq!(names, vec![("a", true), ("top.txt", false)]);
    assert_eq!(kids[0].full_path, "a");
}

#[test]
fn subdir_lists_its_children() {
    let entries = vec![e("a/b.txt", false), e("a/c/d.txt", false)];
    let kids = children(&entries, "a");
    let names: Vec<_> = kids.iter().map(|n| (n.name.as_str(), n.is_dir)).collect();
    assert_eq!(names, vec![("c", true), ("b.txt", false)]);
    assert_eq!(kids[0].full_path, "a/c");
}

#[test]
fn explicit_dir_entries_are_not_duplicated() {
    let entries = vec![e("a/", true), e("a/b.txt", false)];
    let kids = children(&entries, "");
    assert_eq!(kids.len(), 1);
    assert_eq!((kids[0].name.as_str(), kids[0].is_dir), ("a", true));
}

#[test]
fn files_are_sorted_by_name_and_keep_their_sizes() {
    let entries = vec![
        EntryInfo { name: "d/z.txt".to_string(), size: 3, compressed: 2, is_dir: false },
        EntryInfo { name: "d/b.txt".to_string(), size: 7, compressed: 4, is_dir: false },
        EntryInfo { name: "d/y/".to_string(), size: 0, compressed: 0, is_dir: true },
    ];
    let kids = children(&entries, "d");
    let view: Vec<_> = kids
        .iter()
        .map(|n| (n.name.as_str(), n.full_path.as_str(), n.is_dir, n.size, n.compressed))
        .collect();
    assert_eq!(
        view,
        vec![
            ("y", "d/y", true, 0, 0),
            ("b.txt", "d/b.txt", false, 7, 4),
            ("z.txt", "d/z.txt", false, 3, 2),
        ]
    );
}

#[test]
fn entries_marked_as_directories_show_as_folders() {
    // tar lists a directory without a trailing '/'.
    let entries = vec![e("sample", true), e("sample/a.txt", false), e("x", true)];
    let kids = children(&entries, "");
    let names: Vec<_> = kids.iter().map(|n| (n.name.as_str(), n.is_dir)).collect();
    assert_eq!(names, vec![("sample", true), ("x", true)]);
    assert!(children(&entries, "x").is_empty());
}
