use rust_zip_archive::shell::{archive_output, extract_here_dir, extract_to_dir};

#[test]
fn here_dir_is_parent() {
    assert_eq!(extract_here_dir("/tmp/a/b.zip", false), "/tmp/a");
}

#[test]
fn to_dir_strips_known_suffixes() {
    assert_eq!(extract_to_dir("/tmp/a/b.zip", false), "/tmp/a/b");
    assert_eq!(extract_to_dir("/tmp/a/b.tar.gz", false), "/tmp/a/b");
    assert_eq!(extract_to_dir("/tmp/a/b.tgz", false), "/tmp/a/b");
}

#[test]
fn to_dir_fallback_when_no_known_suffix() {
    assert_eq!(extract_to_dir("/tmp/a/weird.bin", false), "/tmp/a/weird.bin_extracted");
}

#[test]
fn output_strips_file_extension() {
    assert_eq!(archive_output("/x/report.docx", ".zip", false, false), "/x/report.zip");
}

#[test]
fn output_no_extension_appends() {
    assert_eq!(archive_output("/x/notes", ".zip", false, false), "/x/notes.zip");
}

#[test]
fn output_two_part_ext() {
    assert_eq!(archive_output("/x/report.docx", ".tar.gz", false, false), "/x/report.tar.gz");
}

#[test]
fn output_folder_uses_dir_name() {
    assert_eq!(archive_output("/tmp/work/photos", ".zip", true, false), "/tmp/work/photos.zip");
}

#[test]
fn output_empty_parent_uses_dot() {
    assert_eq!(archive_output("report.docx", ".zip", false, false), "./report.zip");
}

#[test]
fn here_dir_of_bare_name_is_dot() {
    assert_eq!(extract_here_dir("b.zip", false), ".");
}

#[test]
fn to_dir_matches_suffix_case_insensitively() {
    assert_eq!(extract_to_dir("/tmp/a/B.TAR.GZ", false), "/tmp/a/B");
}

#[test]
fn output_folder_keeps_its_dots() {
    assert_eq!(archive_output("/x/v1.2", ".zip", true, false), "/x/v1.2.zip");
}

#[test]
fn windows_shell_paths_follow_windows_rules() {
    assert_eq!(extract_here_dir("C:\\dl\\b.zip", true), "C:\\dl");
    assert_eq!(extract_here_dir("C:b.zip", true), "C:");
    assert_eq!(extract_here_dir("b.zip", true), ".");
    assert_eq!(extract_to_dir("C:\\dl\\b.tar.gz", true), "C:\\dl\\b");
    assert_eq!(extract_to_dir("C:\\dl\\b.tar.gz", false), "./C:\\dl\\b");
    assert_eq!(archive_output("C:\\x\\report.docx", ".zip", false, true), "C:\\x\\report.zip");
    assert_eq!(archive_output("D:\\photos", ".tar.gz", true, true), "D:\\photos.tar.gz");
}
