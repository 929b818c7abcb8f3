use rust_zip_archive::archive::compressor::inner_name_of;
use rust_zip_archive::archive::format::Format;
use rust_zip_archive::archive::names::{archive_entry_name, sanitize_path, sanitize_windows_name};
use rust_zip_archive::archive::{self, Action, SourceEntry};
use rust_zip_archive::cli::Compression;
use rust_zip_archive::codec::{decode, encode, Codec};
use rust_zip_archive::error::{ArchiveError, Operation};
use rust_zip_archive::paths::to_archive_name;

fn file(name: &str, data: &[u8]) -> SourceEntry {
    SourceEntry {
        path: format!("/src/{name}"),
        name: name.to_string(),
        is_dir: false,
        data: data.to_vec(),
        mode: Some(0o100644),
        mtime: 0,
        uid: 0,
        gid: 0,
    }
}

#[test]
fn error_messages() {
    let cases = vec![
        (
            ArchiveError::UnknownOutputFormat { path: "o.txt".into() },
            "cannot determine archive format from output name: o.txt",
        ),
        (
            ArchiveError::UnrecognizedFormat { path: "a.bin".into() },
            "unrecognized or unsupported archive format: a.bin",
        ),
        (
            ArchiveError::SingleFileOnly { format: Format::Gz },
            "Gz compresses a single file; use a .tar.* format to archive multiple files or a directory",
        ),
        (
            ArchiveError::Unsupported { operation: Operation::Extract, format: Format::SevenZ },
            "extracting SevenZ archives is not supported yet",
        ),
        (ArchiveError::AlreadyExists { path: "x".into() }, "x already exists (use --force to overwrite)"),
        (ArchiveError::InputMissing { path: "in".into() }, "input does not exist: in"),
        (ArchiveError::UnsafePath { name: "../e".into() }, "unsafe path in archive: ../e"),
        (
            ArchiveError::Failed { context: "adding a".into(), detail: "boom".into() },
            "adding a: boom",
        ),
        (ArchiveError::Io { detail: "broken pipe".into() }, "broken pipe"),
    ];
    for (e, want) in cases {
        assert_eq!(e.message(), want);
    }
}

#[test]
fn codec_round_trip_changes_the_bytes() {
    let data = "round and round\n".repeat(30).into_bytes();
    for codec in [Codec::Gzip, Codec::Bzip2, Codec::Xz, Codec::Zstd] {
        let packed = encode(codec, &data).unwrap();
        assert_ne!(packed, data, "{codec:?}");
        assert!(packed.len() < data.len(), "{codec:?}");
        assert_eq!(decode(codec, &packed).unwrap(), data, "{codec:?}");
    }
}

#[test]
fn codec_refuses_garbage() {
    for codec in [Codec::Gzip, Codec::Bzip2, Codec::Xz, Codec::Zstd] {
        assert!(decode(codec, b"definitely not compressed").is_err(), "{codec:?}");
    }
}

#[test]
fn gzip_listing_reads_the_recorded_size() {
    let data = "size me\n".repeat(25);
    let bytes = archive::create("/w/s.txt.gz", &[file("s.txt", data.as_bytes())], Compression::Deflate, false, false)
        .result
        .unwrap();
    let entries = archive::list("/w/s.txt.gz", &bytes, false).unwrap();
    assert_eq!(entries.len(), 1);
    assert_eq!(entries[0].name, "s.txt");
    assert_eq!(entries[0].size, data.len() as u64);
    assert_eq!(entries[0].compressed, bytes.len() as u64);
    assert!(!entries[0].is_dir);
}

#[test]
fn other_compressors_list_size_zero() {
    let bytes = archive::create("/w/s.txt.xz", &[file("s.txt", b"abc")], Compression::Deflate, false, false)
        .result
        .unwrap();
    let entries = archive::list("/w/s.txt.xz", &bytes, false).unwrap();
    assert_eq!((entries[0].name.as_str(), entries[0].size), ("s.txt", 0));
}

#[test]
fn inner_name_falls_back_to_out() {
    assert_eq!(inner_name_of("/w/data.GZ", Format::Gz, false), "data");
    assert_eq!(inner_name_of("/w/data.bin", Format::Gz, false), "data.bin.out");
    assert_eq!(inner_name_of("/w/data.bz2", Format::Bz2, false), "data");
}

#[test]
fn compressed_file_extraction_checks_before_writing() {
    let bytes = archive::create("/w/d.txt.zst", &[file("d.txt", b"zz")], Compression::Deflate, false, false)
        .result
        .unwrap();
    let plan = archive::extract("/w/d.txt.zst", &bytes, "/out", false, false);
    assert!(plan.outcome.is_ok());
    let kinds: Vec<String> = plan
        .actions
        .iter()
        .map(|a| match a {
            Action::Report(p) => format!("report {} {} {}", p.current, p.total, p.message),
            Action::MakeDir(d) => format!("mkdir {d}"),
            Action::EnsureAbsent(p) => format!("absent {p}"),
            Action::Write { path, data, .. } => format!("write {path} {}", data.len()),
        })
        .collect();
    assert_eq!(
        kinds,
        vec![
            "mkdir /out".to_string(),
            "absent /out/d.txt".to_string(),
            "report 0 1 /out/d.txt".to_string(),
            "write /out/d.txt 2".to_string(),
            "report 1 1 done".to_string(),
        ]
    );
    let forced = archive::extract("/w/d.txt.zst", &bytes, "/out", true, false);
    assert!(!forced.actions.iter().any(|a| matches!(a, Action::EnsureAbsent(_))));
}

#[test]
fn garbage_compressed_file_fails_to_extract() {
    let plan = archive::extract("/w/x.gz", &[0x1F, 0x8B, 1, 2, 3], "/out", true, false);
    assert!(matches!(plan.outcome, Err(ArchiveError::Io { .. })));
    // The output file is created before decompression fails, and stays empty.
    let written: Vec<(&str, usize)> = plan
        .actions
        .iter()
        .filter_map(|a| match a {
            Action::Write { path, data, .. } => Some((path.as_str(), data.len())),
            _ => None,
        })
        .collect();
    assert_eq!(written, vec![("/out/x", 0)]);
}

#[test]
fn zip_entry_escaping_the_destination_is_refused() {
    let bytes = archive::create("/w/e.zip", &[file("../evil.txt", b"x")], Compression::Deflate, false, false)
        .result
        .unwrap();
    let plan = archive::extract("/w/e.zip", &bytes, "/out", false, false);
    let err = plan.outcome.unwrap_err();
    assert_eq!(err.message(), "unsafe path in archive: ../evil.txt");
    assert!(!plan.actions.iter().any(|a| matches!(a, Action::Write { .. })));
}

#[test]
fn tar_refuses_to_store_a_parent_path() {
    let built = archive::create("/w/e.tar", &[file("../evil.txt", b"x")], Compression::Deflate, false, false);
    let err = built.result.unwrap_err();
    assert!(err.message().starts_with("adding ../evil.txt: "), "{}", err.message());
    assert_eq!(built.reports.len(), 1);
}

#[test]
fn corrupt_zip_cannot_be_opened() {
    let err = archive::list("/w/bad.zip", &[0x50, 0x4B, 0x03, 0x04, 9, 9, 9], false).unwrap_err();
    assert!(err.message().starts_with("reading archive /w/bad.zip: "), "{}", err.message());
}

#[test]
fn rar_and_7z_are_recognised_but_unsupported() {
    let plan = archive::extract("/w/a.7z", &[0x37, 0x7A, 0xBC, 0xAF, 0x27, 0x1C], "/out", false, false);
    assert_eq!(plan.outcome.unwrap_err().message(), "extracting SevenZ archives is not supported yet");
    let err = archive::list("/w/a.rar", &[0x52, 0x61, 0x72, 0x21], false).unwrap_err();
    assert_eq!(err.message(), "listing Rar archives is not supported yet");
    let err = archive::check_create("/w/a.7z", 1, false, false, false).unwrap_err();
    assert_eq!(err.message(), "creating SevenZ archives is not supported yet");
}

#[test]
fn single_file_formats_refuse_a_directory() {
    let err = archive::check_create("/w/d.bz2", 1, true, false, false).unwrap_err();
    assert!(matches!(err, ArchiveError::SingleFileOnly { format: Format::Bz2 }));
}

#[test]
fn check_create_order_of_refusals() {
    // The extension is looked at before anything else, then the input count,
    // then the output.
    let err = archive::check_create("/w/out.txt", 2, false, false, true).unwrap_err();
    assert!(matches!(err, ArchiveError::UnknownOutputFormat { .. }));
    let err = archive::check_create("/w/out.gz", 2, false, false, true).unwrap_err();
    assert!(matches!(err, ArchiveError::SingleFileOnly { .. }));
    let err = archive::check_create("/w/out.zip", 2, false, false, true).unwrap_err();
    assert!(matches!(err, ArchiveError::AlreadyExists { .. }));
    assert_eq!(archive::check_create("/w/out.zip", 2, false, true, true).unwrap(), Format::Zip);
}

#[test]
fn windows_names_are_made_legal() {
    assert_eq!(sanitize_windows_name("a<b>c:d"), "a_b_c_d");
    assert_eq!(sanitize_windows_name("con.txt"), "_con.txt");
    assert_eq!(sanitize_windows_name("LPT1"), "_LPT1");
    assert_eq!(sanitize_windows_name("trail."), "trail._");
    assert_eq!(sanitize_windows_name(""), "_");
    assert_eq!(sanitize_windows_name("ok.txt"), "ok.txt");
}

#[test]
fn paths_are_sanitized_only_on_windows() {
    assert_eq!(sanitize_path("a/con/b?.txt", false), "a/con/b?.txt");
    assert_eq!(sanitize_path("a/con/b?.txt", true), "a\\_con\\b_.txt");
    assert_eq!(sanitize_path("a\\CON", true), "a\\_CON");
    assert_eq!(sanitize_path("a\\CON", false), "a\\CON");
    assert_eq!(sanitize_path("C:\\x\\nul", true), "C:\\x\\_nul");
    assert_eq!(sanitize_path("./a//b/", true), ".\\a\\b");
}

fn writes(plan: &archive::Plan) -> Vec<String> {
    plan.actions
        .iter()
        .filter_map(|a| match a {
            Action::Write { path, .. } => Some(path.clone()),
            _ => None,
        })
        .collect()
}

#[test]
fn windows_extraction_refuses_backslash_parents_drives_and_roots() {
    for name in ["..\\evil.txt", "a\\..\\..\\evil.txt", "C:evil.txt", "\\evil.txt"] {
        let tar = archive::create("/w/e.tar", &[file(name, b"x")], Compression::Deflate, false, false);
        let tar = tar.result.unwrap();
        let plan = archive::extract("/w/e.tar", &tar, "C:\\out", false, true);
        assert_eq!(plan.outcome.as_ref().unwrap_err().message(), format!("unsafe path in archive: {name}"));
        assert!(writes(&plan).is_empty());
        let zip = archive::create("/w/e.zip", &[file(name, b"x")], Compression::Deflate, false, false);
        let zip = zip.result.unwrap();
        let plan = archive::extract("/w/e.zip", &zip, "C:\\out", false, true);
        assert_eq!(plan.outcome.as_ref().unwrap_err().message(), format!("unsafe path in archive: {name}"));
        assert!(writes(&plan).is_empty());
        // On Unix a backslash or a colon is part of a name.
        let plan = archive::extract("/w/e.tar", &tar, "/out", false, false);
        assert!(plan.outcome.is_ok(), "{name}");
        assert_eq!(writes(&plan), vec![format!("/out/{name}")]);
    }
}

#[test]
fn windows_extraction_writes_safe_names_under_the_destination() {
    let tar = archive::create("/w/e.tar", &[file("a\\CON", b"x"), file("b/nul.txt", b"y")], Compression::Deflate, false, false);
    let plan = archive::extract("/w/e.tar", &tar.result.unwrap(), "C:\\out", false, true);
    assert!(plan.outcome.is_ok());
    assert_eq!(writes(&plan), vec!["C:\\out\\a\\_CON".to_string(), "C:\\out\\b\\_nul.txt".to_string()]);
    assert!(plan.actions.iter().any(|a| matches!(a, Action::MakeDir(d) if d == "C:\\out\\a")));
    let zip = archive::create("/w/e.zip", &[file("d\\..\\aux", b"x")], Compression::Store, false, false);
    let plan = archive::extract("/w/e.zip", &zip.result.unwrap(), "C:\\out\\", false, true);
    assert!(plan.outcome.is_ok());
    assert_eq!(writes(&plan), vec!["C:\\out\\d\\..\\_aux".to_string()]);
}

#[test]
fn windows_compressed_file_is_named_after_the_last_component() {
    let gz = archive::create("/w/notes.txt.gz", &[file("notes.txt", b"hello")], Compression::Deflate, false, false);
    let plan = archive::extract("C:\\dl\\notes.txt.gz", &gz.result.unwrap(), "C:\\out", true, true);
    assert!(plan.outcome.is_ok());
    assert_eq!(writes(&plan), vec!["C:\\out\\notes.txt".to_string()]);
}

#[test]
fn archive_names_are_relative_to_the_input_parent() {
    assert_eq!(archive_entry_name("/w/sample", "/w/sample/a.txt", false), Some("sample/a.txt".to_string()));
    assert_eq!(archive_entry_name("/w/sample", "/w/sample", false), Some("sample".to_string()));
    assert_eq!(archive_entry_name("data.txt", "data.txt", false), Some("data.txt".to_string()));
    assert_eq!(archive_entry_name("./", "./", false), None);
    assert_eq!(to_archive_name("./a/../b/c", false), "a/b/c");
}

#[test]
fn windows_archive_names_drop_drive_and_backslashes() {
    assert_eq!(
        archive_entry_name("C:\\r\\sample", "C:\\r\\sample\\a.txt", true),
        Some("sample/a.txt".to_string())
    );
    assert_eq!(archive_entry_name("c:\\r\\sample", "C:\\r\\sample\\sub\\b.txt", true), Some("sample/sub/b.txt".to_string()));
    assert_eq!(archive_entry_name("C:sample", "C:sample\\a.txt", true), Some("sample/a.txt".to_string()));
    assert_eq!(archive_entry_name("data.txt", "data.txt", true), Some("data.txt".to_string()));
    assert_eq!(archive_entry_name("C:\\", "C:\\", true), None);
    // The same text read with Unix rules keeps the backslashes in one name.
    assert_eq!(
        archive_entry_name("C:\\r\\sample", "C:\\r\\sample\\a.txt", false),
        Some("C:\\r\\sample\\a.txt".to_string())
    );
    assert_eq!(to_archive_name("C:\\a\\.\\b/c", true), "a/b/c");
    assert_eq!(to_archive_name("a\\b", false), "a\\b");
}

#[test]
fn tar_keeps_modes_and_extracts_directories_first() {
    let sources = vec![
        SourceEntry {
            path: "/w/d".into(),
            name: "d".into(),
            is_dir: true,
            data: Vec::new(),
            mode: Some(0o40700),
            mtime: 5,
            uid: 1,
            gid: 2,
        },
        SourceEntry {
            path: "/w/d/x".into(),
            name: "d/x".into(),
            is_dir: false,
            data: b"xyz".to_vec(),
            mode: Some(0o100750),
            mtime: 5,
            uid: 1,
            gid: 2,
        },
    ];
    let bytes = archive::create("/w/d.tgz", &sources, Compression::Deflate, false, false)
        .result
        .unwrap();
    let plan = archive::extract("/w/d.tgz", &bytes, "o", true, false);
    assert!(plan.outcome.is_ok());
    let kinds: Vec<String> = plan
        .actions
        .iter()
        .map(|a| match a {
            Action::Report(p) => format!("report {} {} {}", p.current, p.total, p.message),
            Action::MakeDir(d) => format!("mkdir {d}"),
            Action::EnsureAbsent(p) => format!("absent {p}"),
            Action::Write { path, data, mode, strict } => {
                format!("write {path} {} {:o} {strict}", data.len(), mode.unwrap_or(0))
            }
        })
        .collect();
    assert_eq!(
        kinds,
        vec![
            "mkdir o".to_string(),
            "report 0 0 d".to_string(),
            "mkdir o/d".to_string(),
            "report 1 0 d/x".to_string(),
            "mkdir o/d".to_string(),
            "write o/d/x 3 100750 false".to_string(),
            "report 2 2 done".to_string(),
        ]
    );
}

#[test]
fn zip_names_that_come_back_down_are_extracted() {
    let bytes = archive::create("/w/e.zip", &[file("a/../b.txt", b"x")], Compression::Deflate, false, false)
        .result
        .unwrap();
    let plan = archive::extract("/w/e.zip", &bytes, "/out", true, false);
    assert!(plan.outcome.is_ok());
    assert!(plan
        .actions
        .iter()
        .any(|a| matches!(a, Action::Write { path, .. } if path == "/out/a/../b.txt")));
}

#[test]
fn absolute_zip_names_are_refused() {
    let bytes = archive::create("/w/e.zip", &[file("/etc/x", b"x")], Compression::Deflate, false, false)
        .result
        .unwrap();
    let plan = archive::extract("/w/e.zip", &bytes, "/out", true, false);
    assert_eq!(plan.outcome.unwrap_err().message(), "unsafe path in archive: /etc/x");
}

#[test]
fn a_compressed_file_named_dot_dot_targets_the_parent() {
    // The one name a compressed file's inner name can climb with.
    let bytes = archive::create("/w/...gz", &[file("x", b"x")], Compression::Deflate, false, false)
        .result
        .unwrap();
    let plan = archive::extract("/w/...gz", &bytes, "/out", false, false);
    assert!(plan.actions.iter().any(|a| matches!(a, Action::EnsureAbsent(p) if p == "/out/..")));
}

#[test]
fn windows_names_come_out_legal() {
    let forbidden = ['<', '>', ':', '"', '|', '?', '*'];
    for name in ["AUX.tar.gz", "com3", "a:b", "dot.", "space ", "", "nul.", "x\u{1}y", "lpt9 "] {
        let safe = sanitize_windows_name(name);
        assert!(!safe.is_empty(), "{name:?}");
        assert!(!safe.chars().any(|c| forbidden.contains(&c) || (c as u32) < 0x20), "{name:?}");
        assert!(!safe.ends_with('.') && !safe.ends_with(' '), "{name:?}");
        let stem = safe.split('.').next().unwrap().to_ascii_lowercase();
        let reserved = ["con", "prn", "aux", "nul", "com3", "lpt9"];
        assert!(!reserved.contains(&stem.as_str()), "{name:?} -> {safe:?}");
    }
    assert_eq!(sanitize_windows_name("AUX.tar.gz"), "_AUX.tar.gz");
    assert_eq!(sanitize_windows_name("nul."), "_nul._");
}

#[test]
fn stored_zip_refuses_only_a_repeated_name() {
    let ok = archive::create("/w/s.zip", &[file("a.txt", b"x"), file("b.txt", b"y")], Compression::Store, false, false);
    assert!(ok.result.is_ok());
    let twice = archive::create("/w/s.zip", &[file("a.txt", b"x"), file("a.txt", b"y")], Compression::Store, false, false);
    let err = twice.result.unwrap_err();
    assert!(err.message().starts_with("adding file a.txt: "), "{}", err.message());
    assert_eq!(twice.reports.len(), 2);
}

#[test]
fn plain_tar_named_like_a_signature_reads_as_that_format() {
    let built = archive::create("/w/x.tar", &[file("BZh9", b"x")], Compression::Deflate, false, false);
    let bytes = built.result.unwrap();
    assert_eq!(&bytes[..4], b"BZh9");
    let plan = archive::extract("/w/x.tar", &bytes, "/out", false, false);
    assert!(plan.outcome.is_err());
    let other = archive::create("/w/y.tar", &[file("notes", b"x")], Compression::Deflate, false, false);
    let plan = archive::extract("/w/y.tar", &other.result.unwrap(), "/out", false, false);
    assert!(plan.outcome.is_ok());
    assert_eq!(writes(&plan), vec!["/out/notes".to_string()]);
}

#[test]
fn a_failed_decompression_reports_the_decompressor_text() {
    let bad = b"\x1f\x8bnot really gzip".to_vec();
    let m = decode(Codec::Gzip, &bad).unwrap_err();
    let first = archive::extract("/w/x.gz", &bad, "/out", false, false);
    let second = archive::extract("/w/x.gz", &bad, "/out", false, false);
    assert_eq!(first.outcome.as_ref().unwrap_err().message(), m);
    assert_eq!(second.outcome.as_ref().unwrap_err().message(), m);
    let check = archive::test("/w/x.gz", &bad, false);
    assert_eq!(check.result.unwrap_err().message(), format!("verifying /w/x.gz: {m}"));
}

#[test]
fn selecting_every_listed_name_extracts_everything() {
    let sources = [file("a.txt", b"x"), file("d/b.txt", b"y")];
    for out in ["/w/all.zip", "/w/all.tar", "/w/all.tar.gz"] {
        let bytes = archive::create(out, &sources, Compression::Deflate, false, false).result.unwrap();
        let names: Vec<String> = archive::list(out, &bytes, false).unwrap().into_iter().map(|e| e.name).collect();
        let some = archive::extract_selected(out, &bytes, "/o", &names, false, false);
        let all = archive::extract(out, &bytes, "/o", false, false);
        assert!(some.outcome.is_ok() && all.outcome.is_ok());
        assert_eq!(format!("{:?}", some.actions), format!("{:?}", all.actions));
    }
}

#[test]
fn zip_listing_counts_every_entry_whatever_its_name() {
    let sources = [file("a\\", b"x"), file("b", b"yy")];
    let bytes = archive::create("/w/n.zip", &sources, Compression::Deflate, false, false).result.unwrap();
    let listed = archive::list("/w/n.zip", &bytes, false).unwrap();
    assert_eq!(listed.len(), 2);
    assert!(listed[1].compressed > 0);
    let stored = archive::create("/w/s.zip", &[file("c.txt", b"hello")], Compression::Store, false, false);
    let listed = archive::list("/w/s.zip", &stored.result.unwrap(), false).unwrap();
    assert_eq!((listed[0].size, listed[0].compressed), (5, 5));
}

#[test]
fn making_a_name_safe_twice_changes_nothing_more() {
    for n in ["con.txt", "a<b", "trail. ", "", "ok.txt", "LPT9.x."] {
        let once = sanitize_windows_name(n);
        assert_eq!(sanitize_windows_name(&once), once);
    }
    assert_eq!(sanitize_windows_name("report.pdf"), "report.pdf");
}

#[test]
fn tar_keeps_backslash_and_drive_like_names_on_unix() {
    let sources = [file("a\\b.txt", b"x"), file("C:y", b"yy")];
    for out in ["/w/n.tar", "/w/n.tar.gz"] {
        let bytes = archive::create(out, &sources, Compression::Deflate, false, false).result.unwrap();
        let names: Vec<String> = archive::list(out, &bytes, false).unwrap().into_iter().map(|e| e.name).collect();
        assert_eq!(names, vec!["a\\b.txt".to_string(), "C:y".to_string()]);
        let plan = archive::extract(out, &bytes, "/o", false, false);
        assert!(plan.outcome.is_ok());
        assert_eq!(writes(&plan), vec!["/o/a\\b.txt".to_string(), "/o/C:y".to_string()]);
    }
}

#[test]
fn every_format_is_detected_as_written() {
    let one = [file("notes.txt", b"hello hello")];
    for out in ["/w/a.zip", "/w/a.tar", "/w/a.tgz", "/w/a.tar.bz2", "/w/a.tar.xz", "/w/a.tar.zst", "/w/a.gz", "/w/a.bz2", "/w/a.xz", "/w/a.zst"] {
        let bytes = archive::create(out, &one, Compression::Deflate, false, false).result.unwrap();
        assert_eq!(
            rust_zip_archive::archive::format::detect_for_read(out, &bytes).unwrap(),
            rust_zip_archive::archive::format::detect_for_write(out).unwrap(),
            "{out}"
        );
    }
}

#[test]
fn compression_choices_carry_the_zip_method_numbers() {
    let codes: Vec<u16> = [Compression::Store, Compression::Deflate, Compression::Bzip2, Compression::Zstd]
        .iter()
        .map(|c| c.code())
        .collect();
    assert_eq!(codes, vec![0, 8, 12, 93]);
    assert_eq!(Compression::Bzip2.to_zip_method(), zip::CompressionMethod::Bzip2);
}

#[test]
fn a_truncated_compressed_file_still_writes_what_was_read() {
    let data: Vec<u8> = (0..5000u32).map(|i| (i % 251) as u8).collect();
    for ext in [".gz", ".bz2", ".xz", ".zst"] {
        let name = format!("/w/d.bin{ext}");
        let built = archive::create(&name, &[file("d.bin", &data)], Compression::Deflate, false, false);
        let bytes = built.result.unwrap();
        let cut = &bytes[..bytes.len() - 4];
        let plan = archive::extract(&name, cut, "/out", true, false);
        assert!(plan.outcome.is_err(), "{ext}");
        let written: Vec<&Vec<u8>> = plan
            .actions
            .iter()
            .filter_map(|a| match a {
                Action::Write { path, data, .. } if path == "/out/d.bin" => Some(data),
                _ => None,
            })
            .collect();
        assert_eq!(written.len(), 1, "{ext}");
        assert!(data.starts_with(written[0]), "{ext}");
        if ext == ".gz" {
            // Only the trailer is missing: every byte was read out first.
            assert_eq!(written[0], &data);
        }
    }
}

#[test]
fn the_output_directory_is_the_parent_when_there_is_one() {
    assert_eq!(archive::output_dir("backup.zip", false), None);
    assert_eq!(archive::output_dir("/backup.zip", false), Some("/".to_string()));
    assert_eq!(archive::output_dir("out/b.tar.gz", false), Some("out".to_string()));
    assert_eq!(archive::output_dir("C:\\out\\b.zip", true), Some("C:\\out".to_string()));
    assert_eq!(archive::output_dir("C:b.zip", true), Some("C:".to_string()));
}

#[test]
fn windows_single_file_names_come_from_the_last_component() {
    let gz = archive::create("/w/notes.txt.gz", &[file("notes.txt", b"hello")], Compression::Deflate, false, false);
    let bytes = gz.result.unwrap();
    let listed = archive::list("C:\\dl\\notes.txt.gz", &bytes, true).unwrap();
    assert_eq!(listed[0].name, "notes.txt");
    let unix = archive::list("C:\\dl\\notes.txt.gz", &bytes, false).unwrap();
    assert_eq!(unix[0].name, "C:\\dl\\notes.txt");
    let check = archive::test("C:\\dl\\notes.txt.gz", &bytes, true);
    assert!(check.result.is_ok());
    assert_eq!(check.reports[0].message, "notes.txt");
    assert_eq!(inner_name_of("D:data.GZ", Format::Gz, true), "data");
}
