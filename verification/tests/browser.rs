use rust_zip_archive::archive::{EntryInfo, Progress};
use rust_zip_archive::browser::{decimal_of, Browser, JobMsg};
use rust_zip_archive::cli::Compression;
use rust_zip_archive::error::ArchiveError;

fn entry(name: &str) -> EntryInfo {
    EntryInfo { name: name.to_string(), size: 1, compressed: 1, is_dir: false }
}

#[test]
fn opening_an_archive_shows_its_root() {
    let mut b = Browser::new();
    b.current_dir = "old".to_string();
    b.selected = vec!["old/x".to_string()];
    b.open_archive("/a.zip".to_string(), Ok(vec![entry("a"), entry("b/c")]));
    assert_eq!(b.status, "Opened 2 entries");
    assert_eq!(b.archive_path.as_deref(), Some("/a.zip"));
    assert_eq!(b.entries.len(), 2);
    assert_eq!(b.current_dir, "");
    assert!(b.selected.is_empty());
}

#[test]
fn a_failed_open_keeps_what_was_shown() {
    let mut b = Browser::new();
    b.open_archive("/a.zip".to_string(), Ok(vec![entry("a")]));
    b.current_dir = "d".to_string();
    b.open_archive(
        "/b.bin".to_string(),
        Err(ArchiveError::UnrecognizedFormat { path: "/b.bin".to_string() }),
    );
    assert_eq!(b.status, "Error: unrecognized or unsupported archive format: /b.bin");
    assert_eq!(b.archive_path.as_deref(), Some("/a.zip"));
    assert_eq!(b.current_dir, "d");
}

#[test]
fn staging_counts_the_files() {
    let mut b = Browser::new();
    b.stage(vec!["/x".to_string(), "/y".to_string()]);
    b.stage(vec!["/z".to_string()]);
    assert_eq!(b.staged, vec!["/x", "/y", "/z"]);
    assert_eq!(b.status, "3 file(s) staged");
    b.clear_staged();
    assert!(b.staged.is_empty());
}

#[test]
fn up_goes_to_the_folder_above() {
    let mut b = Browser::new();
    b.current_dir = "a/b/c".to_string();
    b.go_up();
    assert_eq!(b.current_dir, "a/b");
    b.go_up();
    assert_eq!(b.current_dir, "a");
    b.go_up();
    assert_eq!(b.current_dir, "");
    b.go_up();
    assert_eq!(b.current_dir, "");
}

#[test]
fn up_after_entering_a_folder_comes_back() {
    let mut b = Browser::new();
    b.current_dir = "docs/2024".to_string();
    b.enter_dir("docs/2024/march".to_string());
    b.go_up();
    assert_eq!(b.current_dir, "docs/2024");
}

#[test]
fn crumbs_accumulate_the_path() {
    let mut b = Browser::new();
    assert!(b.crumbs().is_empty());
    b.go_to("a/b/c".to_string());
    let crumbs = b.crumbs();
    let view: Vec<(&str, &str)> = crumbs.iter().map(|(l, p)| (l.as_str(), p.as_str())).collect();
    assert_eq!(view, vec![("a", "a"), ("b", "a/b"), ("c", "a/b/c")]);
    b.go_root();
    assert_eq!(b.current_dir, "");
}

#[test]
fn clicking_files_toggles_them() {
    let mut b = Browser::new();
    b.toggle_file("a/x".to_string());
    b.toggle_file("a/y".to_string());
    assert_eq!(b.selected, vec!["a/x", "a/y"]);
    b.toggle_file("a/x".to_string());
    assert_eq!(b.selected, vec!["a/y"]);
    b.toggle_file("a/x".to_string());
    b.toggle_file("a/x".to_string());
    assert_eq!(b.selected, vec!["a/y"]);
    b.click_dir();
    assert!(b.selected.is_empty());
}

#[test]
fn entering_a_folder_clears_the_selection() {
    let mut b = Browser::new();
    b.toggle_file("f".to_string());
    b.enter_dir("d".to_string());
    assert_eq!(b.current_dir, "d");
    assert!(b.selected.is_empty());
}

#[test]
fn a_job_runs_then_reports_how_it_ended() {
    let mut b = Browser::new();
    b.job_started();
    assert!(b.busy);
    assert_eq!(b.status, "Working\u{2026}");
    b.job_progress(Progress { current: 1, total: 4, message: "x".to_string() });
    assert_eq!(b.progress.as_ref().map(|p| p.current), Some(1));
    b.job_done(Ok(()));
    assert!(!b.busy);
    assert!(b.progress.is_none());
    assert_eq!(b.status, "Done.");
    b.job_started();
    b.job_done(Err("disk full".to_string()));
    assert_eq!(b.status, "Error: disk full");
}

#[test]
fn creating_needs_staged_files() {
    let mut b = Browser::new();
    assert!(b.start_create().is_none());
    assert_eq!(b.status, "Add files first (drag them in or use New Archive\u{2026}).");
    b.stage(vec!["/p".to_string()]);
    b.set_method(Compression::Zstd);
    let job = b.start_create().unwrap();
    assert_eq!(job.inputs, vec!["/p"]);
    assert_eq!(job.method, Compression::Zstd);
}

#[test]
fn extracting_needs_an_open_archive() {
    let mut b = Browser::new();
    assert!(b.start_extract(false).is_none());
    b.open_archive("/a.tar".to_string(), Ok(vec![entry("x"), entry("y")]));
    b.toggle_file("y".to_string());
    let all = b.start_extract(false).unwrap();
    assert_eq!(all.archive, "/a.tar");
    assert!(all.names.is_none());
    let some = b.start_extract(true).unwrap();
    assert_eq!(some.names, Some(vec!["y".to_string()]));
}

#[test]
fn decimal_digits() {
    let s: String = decimal_of(0).into_iter().collect();
    assert_eq!(s, "0");
    let s: String = decimal_of(1234567890).into_iter().collect();
    assert_eq!(s, "1234567890");
}

fn prog(n: u64) -> Progress {
    Progress { current: n, total: 3, message: format!("f{n}") }
}

#[test]
fn a_batch_with_done_ends_the_job_and_clears_progress() {
    let mut b = Browser::new();
    b.job_started();
    b.poll(vec![JobMsg::Progress(prog(1)), JobMsg::Progress(prog(2))]);
    assert!(b.busy);
    assert_eq!(b.progress.as_ref().map(|p| p.current), Some(2));
    // A report after the end in the same batch is cleared with the rest.
    b.poll(vec![JobMsg::Progress(prog(3)), JobMsg::Done(Err("boom".into())), JobMsg::Progress(prog(4))]);
    assert!(!b.busy);
    assert!(b.progress.is_none());
    assert_eq!(b.status, "Error: boom");
    b.job_started();
    b.poll(vec![]);
    assert!(b.busy);
    b.poll(vec![JobMsg::Done(Ok(()))]);
    assert_eq!(b.status, "Done.");
    assert!(!b.busy);
}
