use rust_zip_archive::archive::format::{detect_for_read, detect_for_write, Format};
use rust_zip_archive::error::ArchiveError;

#[test]
fn detect_read_by_magic() {
    let cases: &[(&str, &[u8], Format)] = &[
        ("a.zip", &[0x50, 0x4B, 0x03, 0x04], Format::Zip),
        ("a.gz", &[0x1F, 0x8B, 0x08, 0x00], Format::Gz),
        ("a.xz", &[0xFD, b'7', b'z', b'X', b'Z', 0x00], Format::Xz),
        ("a.zst", &[0x28, 0xB5, 0x2F, 0xFD], Format::Zst),
        ("a.bz2", &[0x42, 0x5A, 0x68, 0x39], Format::Bz2),
    ];
    for (name, magic, want) in cases {
        assert_eq!(detect_for_read(name, magic).unwrap(), *want, "{name}");
    }
}

#[test]
fn detect_write_by_extension() {
    assert_eq!(detect_for_write("x.zip").unwrap(), Format::Zip);
    assert_eq!(detect_for_write("x.tar").unwrap(), Format::Tar);
    assert_eq!(detect_for_write("x.tar.gz").unwrap(), Format::TarGz);
    assert_eq!(detect_for_write("x.tgz").unwrap(), Format::TarGz);
    assert_eq!(detect_for_write("x.tar.zst").unwrap(), Format::TarZst);
    assert_eq!(detect_for_write("x.gz").unwrap(), Format::Gz);
}

#[test]
fn magic_tells_tarball_from_single_file_by_name() {
    let gz: &[u8] = &[0x1F, 0x8B, 0x08, 0x00];
    assert_eq!(detect_for_read("a.tar.gz", gz).unwrap(), Format::TarGz);
    assert_eq!(detect_for_read("a.TGZ", gz).unwrap(), Format::TarGz);
    assert_eq!(detect_for_read("a.bin", gz).unwrap(), Format::Gz);
}

#[test]
fn plain_tar_is_known_by_its_name() {
    assert_eq!(detect_for_read("a.tar", b"hello").unwrap(), Format::Tar);
}

#[test]
fn magic_wins_over_the_name() {
    assert_eq!(detect_for_read("a.tar", &[0x50, 0x4B, 0x05, 0x06]).unwrap(), Format::Zip);
}

#[test]
fn unknown_content_and_name_is_refused() {
    let err = detect_for_read("notes.txt", b"plain").unwrap_err();
    assert!(matches!(err, ArchiveError::UnrecognizedFormat { .. }));
    assert_eq!(err.message(), "unrecognized or unsupported archive format: notes.txt");
}

#[test]
fn unknown_extension_is_refused_for_writing() {
    let err = detect_for_write("notes.txt").unwrap_err();
    assert_eq!(err.message(), "cannot determine archive format from output name: notes.txt");
}

#[test]
fn write_extensions_are_case_insensitive() {
    assert_eq!(detect_for_write("X.ZIP").unwrap(), Format::Zip);
    assert_eq!(detect_for_write("x.Tar.Bz2").unwrap(), Format::TarBz2);
    assert_eq!(detect_for_write("x.txz").unwrap(), Format::TarXz);
    assert_eq!(detect_for_write("x.7z").unwrap(), Format::SevenZ);
}
