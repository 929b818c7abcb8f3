use rust_zip_archive::archive::{self, Action, Plan, SourceEntry};
use rust_zip_archive::cli::Compression;

fn file(path: &str, name: &str, data: &[u8]) -> SourceEntry {
    SourceEntry {
        path: path.to_string(),
        name: name.to_string(),
        is_dir: false,
        data: data.to_vec(),
        mode: Some(0o100644),
        mtime: 1_700_000_000,
        uid: 1000,
        gid: 1000,
    }
}

fn dir(path: &str, name: &str) -> SourceEntry {
    SourceEntry {
        path: path.to_string(),
        name: name.to_string(),
        is_dir: true,
        data: Vec::new(),
        mode: Some(0o40755),
        mtime: 1_700_000_000,
        uid: 1000,
        gid: 1000,
    }
}

/// The files a plan writes, in order, after checking that it succeeds.
fn written(plan: &Plan) -> Vec<(String, Vec<u8>)> {
    assert!(plan.outcome.is_ok(), "plan failed: {:?}", plan.outcome.as_ref().err().map(|e| e.message()));
    plan.actions
        .iter()
        .filter_map(|a| match a {
            Action::Write { path, data, .. } => Some((path.clone(), data.clone())),
            _ => None,
        })
        .collect()
}

fn round_trip(ext: &str) {
    let body = "compress me\n".repeat(100);
    let archive_name = format!("/w/data.txt{ext}");
    let sources = vec![file("/w/data.txt", "data.txt", body.as_bytes())];
    let built = archive::create(&archive_name, &sources, Compression::Deflate, false, false);
    let bytes = built.result.unwrap_or_else(|e| panic!("{ext}: {}", e.message()));

    let entries = archive::list(&archive_name, &bytes, false).unwrap();
    assert_eq!(entries.len(), 1, "{ext}: should list exactly one entry");
    assert_eq!(entries[0].name, "data.txt", "{ext}: inner name");

    let plan = archive::extract(&archive_name, &bytes, "/w/out", false, false);
    let files = written(&plan);
    assert_eq!(files, vec![("/w/out/data.txt".to_string(), body.into_bytes())], "{ext}: content mismatch");
}

#[test]
fn gz_round_trip() {
    round_trip(".gz");
}
#[test]
fn bz2_round_trip() {
    round_trip(".bz2");
}
#[test]
fn xz_round_trip() {
    round_trip(".xz");
}
#[test]
fn zst_round_trip() {
    round_trip(".zst");
}

#[test]
fn gz_rejects_multiple_inputs() {
    let sources = vec![file("/w/a.txt", "a.txt", b"a"), file("/w/b.txt", "b.txt", b"b")];
    let built = archive::create("/w/out.gz", &sources, Compression::Deflate, false, false);
    let err = built.result.unwrap_err();
    assert!(
        err.message().contains("single file"),
        "expected single-file error, got: {}",
        err.message()
    );
}

fn sample() -> Vec<SourceEntry> {
    vec![
        dir("/w/sample", "sample"),
        file("/w/sample/a.txt", "sample/a.txt", "hello\n".repeat(50).as_bytes()),
        dir("/w/sample/nested", "sample/nested"),
        file("/w/sample/nested/b.txt", "sample/nested/b.txt", b"deep\n"),
    ]
}

fn tar_family_round_trip(ext: &str) {
    let archive_name = format!("/w/out{ext}");
    let built = archive::create(&archive_name, &sample(), Compression::Deflate, false, false);
    let bytes = built.result.unwrap_or_else(|e| panic!("{ext}: {}", e.message()));

    let entries = archive::list(&archive_name, &bytes, false).unwrap();
    let names: Vec<&str> = entries.iter().map(|e| e.name.as_str()).collect();
    assert!(names.iter().any(|n| n.ends_with("a.txt")), "{ext}: a.txt missing in list");

    let plan = archive::extract(&archive_name, &bytes, "/w/out", false, false);
    let files = written(&plan);
    let restored = files.iter().find(|(p, _)| p == "/w/out/sample/a.txt").expect("a.txt written");
    assert_eq!(restored.1, "hello\n".repeat(50).into_bytes(), "{ext}: content mismatch");
}

#[test]
fn tar_round_trip() {
    tar_family_round_trip(".tar");
}
#[test]
fn tar_gz_round_trip() {
    tar_family_round_trip(".tar.gz");
}
#[test]
fn tar_bz2_round_trip() {
    tar_family_round_trip(".tar.bz2");
}
#[test]
fn tar_xz_round_trip() {
    tar_family_round_trip(".tar.xz");
}
#[test]
fn tar_zst_round_trip() {
    tar_family_round_trip(".tar.zst");
}

#[test]
fn tar_extract_selected() {
    let sources = vec![
        dir("/w/s", "s"),
        file("/w/s/keep.txt", "s/keep.txt", b"k"),
        file("/w/s/skip.txt", "s/skip.txt", b"s"),
    ];
    let bytes = archive::create("/w/a.tar", &sources, Compression::Deflate, false, false)
        .result
        .unwrap();
    let plan = archive::extract_selected(
        "/w/a.tar",
        &bytes,
        "/w/out",
        &vec!["s/keep.txt".to_string()],
        false,
        false,
    );
    let files = written(&plan);
    assert!(files.iter().any(|(p, _)| p == "/w/out/s/keep.txt"));
    assert!(!files.iter().any(|(p, _)| p == "/w/out/s/skip.txt"));
}
