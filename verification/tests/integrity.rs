use rust_zip_archive::archive::{self, SourceEntry};
use rust_zip_archive::cli::Compression;

fn file(path: &str, name: &str, data: &[u8]) -> SourceEntry {
    SourceEntry {
        path: path.to_string(),
        name: name.to_string(),
        is_dir: false,
        data: data.to_vec(),
        mode: Some(0o100644),
        mtime: 0,
        uid: 0,
        gid: 0,
    }
}

fn dir(path: &str, name: &str) -> SourceEntry {
    SourceEntry {
        path: path.to_string(),
        name: name.to_string(),
        is_dir: true,
        data: Vec::new(),
        mode: Some(0o40755),
        mtime: 0,
        uid: 0,
        gid: 0,
    }
}

fn good_archive(ext: &str) -> (String, Vec<u8>) {
    let sources = vec![
        dir("/w/sample", "sample"),
        file("/w/sample/a.txt", "sample/a.txt", "data\n".repeat(100).as_bytes()),
    ];
    let name = format!("/w/a{ext}");
    let bytes = archive::create(&name, &sources, Compression::Deflate, false, false)
        .result
        .unwrap();
    (name, bytes)
}

#[test]
fn test_passes_on_good_archives() {
    for ext in [".zip", ".tar.gz", ".gz"] {
        let (name, bytes) = if ext == ".gz" {
            // single-file compressor needs a single file input
            let sources = vec![file("/w/x.txt", "x.txt", "y".repeat(200).as_bytes())];
            let bytes = archive::create("/w/x.txt.gz", &sources, Compression::Deflate, false, false)
                .result
                .unwrap();
            ("/w/x.txt.gz".to_string(), bytes)
        } else {
            good_archive(ext)
        };
        let outcome = archive::test(&name, &bytes, false);
        if let Err(e) = outcome.result {
            panic!("{ext} should pass: {}", e.message());
        }
    }
}

#[test]
fn test_fails_on_corrupt_archive() {
    let (name, bytes) = good_archive(".zip");
    // Truncate the archive to corrupt it.
    let half = &bytes[..bytes.len() / 2];
    assert!(archive::test(&name, half, false).result.is_err(), "truncated zip should fail test");
}

#[test]
fn zip_check_reports_each_entry_then_ok() {
    let (name, bytes) = good_archive(".zip");
    let outcome = archive::test(&name, &bytes, false);
    assert!(outcome.result.is_ok());
    let seen: Vec<(u64, u64, String)> =
        outcome.reports.into_iter().map(|p| (p.current, p.total, p.message)).collect();
    assert_eq!(
        seen,
        vec![
            (0, 2, "sample/".to_string()),
            (1, 2, "sample/a.txt".to_string()),
            (2, 2, "ok".to_string()),
        ]
    );
}

#[test]
fn tar_check_counts_entries_as_it_goes() {
    let (name, bytes) = good_archive(".tar.gz");
    let outcome = archive::test(&name, &bytes, false);
    assert!(outcome.result.is_ok());
    let seen: Vec<(u64, u64, String)> =
        outcome.reports.into_iter().map(|p| (p.current, p.total, p.message)).collect();
    assert_eq!(
        seen,
        vec![
            (0, 0, "sample".to_string()),
            (1, 0, "sample/a.txt".to_string()),
            (2, 2, "ok".to_string()),
        ]
    );
}

#[test]
fn compressed_file_check_fails_on_garbage() {
    let mut bytes = vec![0x1F, 0x8B];
    bytes.extend_from_slice(b"not really gzip");
    let outcome = archive::test("/w/x.gz", &bytes, false);
    let err = outcome.result.unwrap_err();
    assert!(err.message().starts_with("verifying /w/x.gz: "));
    assert_eq!(outcome.reports.len(), 1);
    assert_eq!(outcome.reports[0].message, "x");
}

#[test]
fn testing_a_rar_is_not_supported() {
    let outcome = archive::test("/w/a.rar", &[0x52, 0x61, 0x72, 0x21, 0, 0], false);
    assert_eq!(outcome.result.unwrap_err().message(), "testing Rar archives is not supported yet");
}
