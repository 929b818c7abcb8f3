use rust_zip_archive::archive::{self, Action, Plan, SourceEntry};
use rust_zip_archive::cli::Compression;
use rust_zip_archive::shell::{archive_output, extract_here_dir, extract_to_dir};

fn file(path: &str, name: &str, data: &[u8]) -> SourceEntry {
    SourceEntry {
        path: path.to_string(),
        name: name.to_string(),
        is_dir: false,
        data: data.to_vec(),
        mode: Some(0o100644),
        mtime: 0,
        uid: 0,
        gid: 0,
    }
}

fn dir(path: &str, name: &str) -> SourceEntry {
    SourceEntry {
        path: path.to_string(),
        name: name.to_string(),
        is_dir: true,
        data: Vec::new(),
        mode: Some(0o40755),
        mtime: 0,
        uid: 0,
        gid: 0,
    }
}

fn writes(plan: &Plan) -> Vec<String> {
    plan.actions
        .iter()
        .filter_map(|a| match a {
            Action::Write { path, .. } => Some(path.clone()),
            _ => None,
        })
        .collect()
}

#[test]
fn cli_creates_and_lists_tar_gz() {
    let sources = vec![file("/t/hello.txt", "hello.txt", b"hi\n")];
    let bytes = archive::create("/t/out.tar.gz", &sources, Compression::Deflate, false, false)
        .result
        .unwrap();
    assert!(!bytes.is_empty());
    let entries = archive::list("/t/out.tar.gz", &bytes, false).unwrap();
    assert!(entries.iter().any(|e| e.name.contains("hello.txt")));
}

#[test]
fn extract_here_lands_in_archive_dir() {
    let sources = vec![file("/t/data.txt", "data.txt", b"hello\n")];
    let bytes = archive::create("/t/bundle.zip", &sources, Compression::Deflate, false, false)
        .result
        .unwrap();
    let dest = extract_here_dir("/t/bundle.zip", false);
    let plan = archive::extract("/t/bundle.zip", &bytes, &dest, false, false);
    assert!(plan.outcome.is_ok());
    // "Extract Here" puts entries directly in the archive's folder.
    assert_eq!(writes(&plan), vec!["/t/data.txt".to_string()]);
}

#[test]
fn extract_to_lands_in_named_subfolder() {
    let sources = vec![file("/t/data.txt", "data.txt", b"hello\n")];
    let bytes = archive::create("/t/bundle.zip", &sources, Compression::Deflate, false, false)
        .result
        .unwrap();
    let dest = extract_to_dir("/t/bundle.zip", false);
    let plan = archive::extract("/t/bundle.zip", &bytes, &dest, false, false);
    assert!(plan.outcome.is_ok());
    // "Extract to bundle\" puts entries under a subfolder named after the archive.
    assert_eq!(writes(&plan), vec!["/t/bundle/data.txt".to_string()]);
}

#[test]
fn compress_zip_creates_named_archive() {
    let output = archive_output("/t/photos", ".zip", true, false);
    assert_eq!(output, "/t/photos.zip", "photos.zip should be created next to the folder");
    let sources = vec![dir("/t/photos", "photos"), file("/t/photos/a.txt", "photos/a.txt", b"a")];
    let bytes = archive::create(&output, &sources, Compression::Deflate, false, false)
        .result
        .unwrap();
    let entries = archive::list(&output, &bytes, false).unwrap();
    assert!(entries.iter().any(|e| e.name.contains("a.txt")));
}

#[test]
fn compress_targz_creates_named_archive() {
    let output = archive_output("/t/docs", ".tar.gz", true, false);
    assert_eq!(output, "/t/docs.tar.gz", "docs.tar.gz should be created");
    let sources = vec![dir("/t/docs", "docs"), file("/t/docs/b.txt", "docs/b.txt", b"b")];
    let built = archive::create(&output, &sources, Compression::Deflate, false, false);
    assert!(built.result.is_ok());
}

#[test]
fn test_command_passes_and_fails() {
    let body = "hello\n".repeat(50);
    let sources = vec![file("/t/data.txt", "data.txt", body.as_bytes())];
    let bytes = archive::create("/t/good.zip", &sources, Compression::Deflate, false, false)
        .result
        .unwrap();
    assert!(archive::test("/t/good.zip", &bytes, false).result.is_ok());
    let half = &bytes[..bytes.len() / 2];
    assert!(archive::test("/t/good.zip", half, false).result.is_err());
}
