use rust_zip_archive::archive::{self, Action, EntryInfo, SourceEntry};
use rust_zip_archive::cli::Compression;

fn file(path: &str, name: &str, data: &[u8], mode: u32) -> SourceEntry {
    SourceEntry {
        path: path.to_string(),
        name: name.to_string(),
        is_dir: false,
        data: data.to_vec(),
        mode: Some(mode),
        mtime: 0,
        uid: 0,
        gid: 0,
    }
}

fn dir(path: &str, name: &str) -> SourceEntry {
    SourceEntry {
        path: path.to_string(),
        name: name.to_string(),
        is_dir: true,
        data: Vec::new(),
        mode: Some(0o40755),
        mtime: 0,
        uid: 0,
        gid: 0,
    }
}

#[test]
fn create_list_extract_round_trip() {
    let notes = "hello world\n".repeat(100);
    let sources = vec![
        dir("/r/sample", "sample"),
        file("/r/sample/notes.txt", "sample/notes.txt", notes.as_bytes(), 0o100644),
        dir("/r/sample/nested", "sample/nested"),
        file("/r/sample/nested/deep.txt", "sample/nested/deep.txt", b"deep file\n", 0o100644),
    ];
    let built = archive::create("/r/backup.zip", &sources, Compression::Deflate, false, false);
    let bytes = built.result.expect("create failed");
    assert!(!bytes.is_empty(), "archive was not written");

    let listing = archive::list("/r/backup.zip", &bytes, false).expect("list failed");
    assert!(listing.iter().any(|e| e.name.contains("notes.txt")), "listing missing notes.txt");
    assert!(listing.iter().any(|e| e.name.contains("deep.txt")), "listing missing deep.txt");

    let plan = archive::extract("/r/backup.zip", &bytes, "/r/restored", false, false);
    assert!(plan.outcome.is_ok(), "extract failed");
    let write_of = |target: &str| {
        plan.actions.iter().find_map(|a| match a {
            Action::Write { path, data, .. } if path == target => Some(data.clone()),
            _ => None,
        })
    };
    assert_eq!(
        write_of("/r/restored/sample/notes.txt").unwrap(),
        notes.into_bytes(),
        "notes.txt content changed"
    );
    assert_eq!(
        write_of("/r/restored/sample/nested/deep.txt").unwrap(),
        b"deep file\n".to_vec(),
        "nested file content changed"
    );
}

#[test]
fn create_into_missing_output_dir() {
    // The missing directories are made before the archive is written.
    assert_eq!(archive::output_dir("/r/out/nested/backup.zip", false), Some("/r/out/nested".to_string()));
    let sources = vec![file("/r/data.txt", "data.txt", b"some data\n", 0o100644)];
    let check = archive::check_create("/r/out/nested/backup.zip", 1, false, false, false);
    assert!(check.is_ok(), "create into missing dir failed");
    let built = archive::create("/r/out/nested/backup.zip", &sources, Compression::Deflate, false, false);
    assert!(built.result.is_ok(), "archive not created in new directory");
}

#[test]
fn preserves_executable_bit() {
    let sources = vec![file("/r/run.sh", "run.sh", b"#!/bin/sh\necho hi\n", 0o100755)];
    let bytes = archive::create("/r/backup.zip", &sources, Compression::Deflate, false, false)
        .result
        .unwrap();
    let plan = archive::extract("/r/backup.zip", &bytes, "/r/out", false, false);
    assert!(plan.outcome.is_ok());
    let mode = plan
        .actions
        .iter()
        .find_map(|a| match a {
            Action::Write { path, mode, .. } if path == "/r/out/run.sh" => *mode,
            _ => None,
        })
        .unwrap();
    assert!(mode & 0o111 != 0, "executable bit was not preserved");
}

#[test]
fn list_returns_entry_metadata() {
    let sources = vec![file("/r/data.txt", "data.txt", "x".repeat(500).as_bytes(), 0o100644)];
    let bytes = archive::create("/r/a.zip", &sources, Compression::Deflate, false, false)
        .result
        .unwrap();
    let entries: Vec<EntryInfo> = archive::list("/r/a.zip", &bytes, false).unwrap();
    assert_eq!(entries.len(), 1);
    assert_eq!(entries[0].name, "data.txt");
    assert_eq!(entries[0].size, 500);
    assert!(entries[0].compressed > 0);
    assert!(!entries[0].is_dir);
}

#[test]
fn every_zip_method_round_trips() {
    for method in [Compression::Store, Compression::Deflate, Compression::Bzip2, Compression::Zstd] {
        let body = "abcabcabc\n".repeat(40);
        let sources = vec![file("/r/t.txt", "t.txt", body.as_bytes(), 0o100600)];
        let bytes = archive::create("/r/t.zip", &sources, method, false, false).result.unwrap();
        let plan = archive::extract("/r/t.zip", &bytes, "out", true, false);
        assert!(plan.outcome.is_ok());
        let data = plan.actions.iter().find_map(|a| match a {
            Action::Write { data, mode, strict, .. } => Some((data.clone(), *mode, *strict)),
            _ => None,
        });
        assert_eq!(data, Some((body.into_bytes(), Some(0o100600), true)), "{method:?}");
    }
}

#[test]
fn stored_zip_compresses_nothing() {
    let sources = vec![file("/r/t.txt", "t.txt", "z".repeat(300).as_bytes(), 0o100644)];
    let bytes = archive::create("/r/t.zip", &sources, Compression::Store, false, false)
        .result
        .unwrap();
    let entries = archive::list("/r/t.zip", &bytes, false).unwrap();
    assert_eq!(entries[0].compressed, 300);
}

#[test]
fn zip_directories_are_listed_with_a_slash() {
    let sources = vec![dir("/r/d", "d"), file("/r/d/f", "d/f", b"1", 0o100644)];
    let bytes = archive::create("/r/d.zip", &sources, Compression::Deflate, false, false)
        .result
        .unwrap();
    let entries = archive::list("/r/d.zip", &bytes, false).unwrap();
    let view: Vec<(String, bool)> = entries.iter().map(|e| (e.name.clone(), e.is_dir)).collect();
    assert_eq!(view, vec![("d/".to_string(), true), ("d/f".to_string(), false)]);
}

#[test]
fn creating_onto_an_existing_output_needs_force() {
    let sources = vec![file("/r/data.txt", "data.txt", b"1", 0o100644)];
    let refused = archive::create("/r/a.zip", &sources, Compression::Deflate, false, true);
    assert_eq!(
        refused.result.unwrap_err().message(),
        "/r/a.zip already exists (use --force to overwrite)"
    );
    let forced = archive::create("/r/a.zip", &sources, Compression::Deflate, true, true);
    assert!(forced.result.is_ok());
}

#[test]
fn create_reports_each_entry_then_done() {
    let sources = vec![dir("/r/d", "d"), file("/r/d/f", "d/f", b"1", 0o100644)];
    let built = archive::create("/r/d.tar", &sources, Compression::Deflate, false, false);
    let seen: Vec<(u64, u64, String)> =
        built.reports.into_iter().map(|p| (p.current, p.total, p.message)).collect();
    assert_eq!(
        seen,
        vec![(0, 2, "d".to_string()), (1, 2, "d/f".to_string()), (2, 2, "done".to_string())]
    );
}
