//! Archive format identification by magic bytes (for reading) and by file
//! extension (for writing).
use vstd::prelude::*;
use crate::error::ArchiveError;
use crate::text::{chars_of, ends_with_lower, ends_with_lower_exec, lemma_not_both, string_of};

verus! {

/// The archive formats the library knows.
#[derive(Clone, Copy, Debug, PartialEq, Eq, Structural)]
pub enum Format {
    Zip,
    Tar,
    TarGz,
    TarBz2,
    TarXz,
    TarZst,
    Gz,
    Bz2,
    Xz,
    Zst,
    SevenZ,
    Rar,
}

/// The format's name as the messages print it.
pub open spec fn format_name(f: Format) -> Seq<char> {
    match f {
        Format::Zip => "Zip"@,
        Format::Tar => "Tar"@,
        Format::TarGz => "TarGz"@,
        Format::TarBz2 => "TarBz2"@,
        Format::TarXz => "TarXz"@,
        Format::TarZst => "TarZst"@,
        Format::Gz => "Gz"@,
        Format::Bz2 => "Bz2"@,
        Format::Xz => "Xz"@,
        Format::Zst => "Zst"@,
        Format::SevenZ => "SevenZ"@,
        Format::Rar => "Rar"@,
    }
}

/// Whether the format is a tar container (plain or compressed).
pub open spec fn is_tar_family(f: Format) -> bool {
    f == Format::Tar || f == Format::TarGz || f == Format::TarBz2 || f == Format::TarXz || f
        == Format::TarZst
}

/// Whether the format is a single-file compressor.
pub open spec fn is_single_file(f: Format) -> bool {
    f == Format::Gz || f == Format::Bz2 || f == Format::Xz || f == Format::Zst
}

impl Format {
    /// The format's name (as `Debug` prints it).
    pub fn name(&self) -> (r: &'static str)
        ensures
            r@ == format_name(*self),
    {
        match self {
            Format::Zip => "Zip",
            Format::Tar => "Tar",
            Format::TarGz => "TarGz",
            Format::TarBz2 => "TarBz2",
            Format::TarXz => "TarXz",
            Format::TarZst => "TarZst",
            Format::Gz => "Gz",
            Format::Bz2 => "Bz2",
            Format::Xz => "Xz",
            Format::Zst => "Zst",
            Format::SevenZ => "SevenZ",
            Format::Rar => "Rar",
        }
    }

    /// Whether this is a tar container (plain or compressed).
    pub fn is_tar(&self) -> (r: bool)
        ensures
            r == is_tar_family(*self),
    {
        match self {
            Format::Tar | Format::TarGz | Format::TarBz2 | Format::TarXz | Format::TarZst => true,
            _ => false,
        }
    }

    /// Whether this is a single-file compressor.
    pub fn is_single_file(&self) -> (r: bool)
        ensures
            r == is_single_file(*self),
    {
        match self {
            Format::Gz | Format::Bz2 | Format::Xz | Format::Zst => true,
            _ => false,
        }
    }
}

/// The format that an output name asks for, by its (case-insensitive)
/// extension; the double `.tar.*` endings are tried before the single ones.
pub open spec fn write_format(p: Seq<char>) -> Option<Format> {
    if ends_with_lower(p, ".tar.gz"@) || ends_with_lower(p, ".tgz"@) {
        Some(Format::TarGz)
    } else if ends_with_lower(p, ".tar.bz2"@) || ends_with_lower(p, ".tbz2"@) {
        Some(Format::TarBz2)
    } else if ends_with_lower(p, ".tar.xz"@) || ends_with_lower(p, ".txz"@) {
        Some(Format::TarXz)
    } else if ends_with_lower(p, ".tar.zst"@) || ends_with_lower(p, ".tzst"@) {
        Some(Format::TarZst)
    } else if ends_with_lower(p, ".tar"@) {
        Some(Format::Tar)
    } else if ends_with_lower(p, ".zip"@) {
        Some(Format::Zip)
    } else if ends_with_lower(p, ".7z"@) {
        Some(Format::SevenZ)
    } else if ends_with_lower(p, ".gz"@) {
        Some(Format::Gz)
    } else if ends_with_lower(p, ".bz2"@) {
        Some(Format::Bz2)
    } else if ends_with_lower(p, ".xz"@) {
        Some(Format::Xz)
    } else if ends_with_lower(p, ".zst"@) {
        Some(Format::Zst)
    } else if ends_with_lower(p, ".rar"@) {
        Some(Format::Rar)
    } else {
        None
    }
}

/// Whether `b` begins with `sig`.
pub open spec fn starts_with(b: Seq<u8>, sig: Seq<u8>) -> bool {
    sig.len() <= b.len() && b.take(sig.len() as int) == sig
}

/// The signature of a zip that holds entries (a local file header).
pub open spec fn zip_local_magic() -> Seq<u8> {
    seq![0x50u8, 0x4Bu8, 0x03u8, 0x04u8]
}

/// The signature of an empty zip (its end-of-central-directory record).
pub open spec fn zip_empty_magic() -> Seq<u8> {
    seq![0x50u8, 0x4Bu8, 0x05u8, 0x06u8]
}

/// The 7z signature.
pub open spec fn sevenz_magic() -> Seq<u8> {
    seq![0x37u8, 0x7Au8, 0xBCu8, 0xAFu8, 0x27u8, 0x1Cu8]
}

/// The RAR signature.
pub open spec fn rar_magic() -> Seq<u8> {
    seq![0x52u8, 0x61u8, 0x72u8, 0x21u8]
}

/// The gzip signature.
pub open spec fn gzip_magic() -> Seq<u8> {
    seq![0x1Fu8, 0x8Bu8]
}

/// The xz stream signature.
pub open spec fn xz_magic() -> Seq<u8> {
    seq![0xFDu8, 0x37u8, 0x7Au8, 0x58u8, 0x5Au8, 0x00u8]
}

/// The zstd frame signature.
pub open spec fn zstd_magic() -> Seq<u8> {
    seq![0x28u8, 0xB5u8, 0x2Fu8, 0xFDu8]
}

/// The bzip2 signature.
pub open spec fn bzip2_magic() -> Seq<u8> {
    seq![0x42u8, 0x5Au8, 0x68u8]
}

/// The format of an existing archive named `p` whose first bytes are `b`: the
/// container or compressor comes from the magic bytes; tar-versus-single-file
/// for the compressors, and plain tar, come from the extension.
pub open spec fn read_format(p: Seq<char>, b: Seq<u8>) -> Option<Format> {
    if starts_with(b, zip_local_magic()) || starts_with(b, zip_empty_magic()) {
        Some(Format::Zip)
    } else if starts_with(b, sevenz_magic()) {
        Some(Format::SevenZ)
    } else if starts_with(b, rar_magic()) {
        Some(Format::Rar)
    } else if starts_with(b, gzip_magic()) {
        if ends_with_lower(p, ".tar.gz"@) || ends_with_lower(p, ".tgz"@) {
            Some(Format::TarGz)
        } else {
            Some(Format::Gz)
        }
    } else if starts_with(b, xz_magic()) {
        if ends_with_lower(p, ".tar.xz"@) || ends_with_lower(p, ".txz"@) {
            Some(Format::TarXz)
        } else {
            Some(Format::Xz)
        }
    } else if starts_with(b, zstd_magic()) {
        if ends_with_lower(p, ".tar.zst"@) || ends_with_lower(p, ".tzst"@) {
            Some(Format::TarZst)
        } else {
            Some(Format::Zst)
        }
    } else if starts_with(b, bzip2_magic()) {
        if ends_with_lower(p, ".tar.bz2"@) || ends_with_lower(p, ".tbz2"@) {
            Some(Format::TarBz2)
        } else {
            Some(Format::Bz2)
        }
    } else if ends_with_lower(p, ".tar"@) {
        Some(Format::Tar)
    } else {
        None
    }
}

/// Case-insensitive extension test against a lower-case suffix.
fn ext_matches(p: &Vec<char>, suffix: &str) -> (r: bool)
    ensures
        r == ends_with_lower(p@, suffix@),
{
    let s = chars_of(suffix);
    ends_with_lower_exec(p, &s)
}

/// Determine the format to write from the output path's extension.
pub fn detect_for_write(path: &str) -> (r: Result<Format, ArchiveError>)
    ensures
        match write_format(path@) {
            Some(f) => r == Ok::<Format, ArchiveError>(f),
            None => r matches Err(ArchiveError::UnknownOutputFormat { path: q }) && q@ == path@,
        },
{
    let p = chars_of(path);
    let f = if ext_matches(&p, ".tar.gz") || ext_matches(&p, ".tgz") {
        Format::TarGz
    } else if ext_matches(&p, ".tar.bz2") || ext_matches(&p, ".tbz2") {
        Format::TarBz2
    } else if ext_matches(&p, ".tar.xz") || ext_matches(&p, ".txz") {
        Format::TarXz
    } else if ext_matches(&p, ".tar.zst") || ext_matches(&p, ".tzst") {
        Format::TarZst
    } else if ext_matches(&p, ".tar") {
        Format::Tar
    } else if ext_matches(&p, ".zip") {
        Format::Zip
    } else if ext_matches(&p, ".7z") {
        Format::SevenZ
    } else if ext_matches(&p, ".gz") {
        Format::Gz
    } else if ext_matches(&p, ".bz2") {
        Format::Bz2
    } else if ext_matches(&p, ".xz") {
        Format::Xz
    } else if ext_matches(&p, ".zst") {
        Format::Zst
    } else if ext_matches(&p, ".rar") {
        Format::Rar
    } else {
        return Err(ArchiveError::UnknownOutputFormat { path: string_of(p.as_slice()) });
    };
    Ok(f)
}

/// Exec form of `starts_with`.
fn starts(b: &[u8], sig: &[u8]) -> (r: bool)
    ensures
        r == starts_with(b@, sig@),
{
    if sig.len() > b.len() {
        return false;
    }
    let n = sig.len();
    let mut i: usize = 0;
    while i < n
        invariant
            n == sig@.len(),
            n <= b@.len(),
            i <= n,
            forall|k: int| 0 <= k < i ==> b@[k] == sig@[k],
        decreases n - i,
    {
        if b[i] != sig[i] {
            assert(b@.take(n as int)[i as int] != sig@[i as int]);
            return false;
        }
        i = i + 1;
    }
    assert(b@.take(n as int) =~= sig@);
    true
}

/// Determine the format of an existing archive named `path` by sniffing the
/// magic bytes at the start of its contents (`head`: its first bytes, as many
/// as one read of up to six gives), falling back to the extension, which also
/// tells tarballs from single-file compressors.
pub fn detect_for_read(path: &str, head: &[u8]) -> (r: Result<Format, ArchiveError>)
    ensures
        match read_format(path@, head@) {
            Some(f) => r == Ok::<Format, ArchiveError>(f),
            None => r matches Err(ArchiveError::UnrecognizedFormat { path: q }) && q@ == path@,
        },
{
    let p = chars_of(path);
    let zip1: [u8; 4] = [0x50, 0x4B, 0x03, 0x04];
    let zip2: [u8; 4] = [0x50, 0x4B, 0x05, 0x06];
    let sevenz: [u8; 6] = [0x37, 0x7A, 0xBC, 0xAF, 0x27, 0x1C];
    let rar: [u8; 4] = [0x52, 0x61, 0x72, 0x21];
    let gz: [u8; 2] = [0x1F, 0x8B];
    let xz: [u8; 6] = [0xFD, 0x37, 0x7A, 0x58, 0x5A, 0x00];
    let zst: [u8; 4] = [0x28, 0xB5, 0x2F, 0xFD];
    let bz2: [u8; 3] = [0x42, 0x5A, 0x68];
    assert(zip1@ =~= zip_local_magic());
    assert(zip2@ =~= zip_empty_magic());
    assert(sevenz@ =~= sevenz_magic());
    assert(rar@ =~= rar_magic());
    assert(gz@ =~= gzip_magic());
    assert(xz@ =~= xz_magic());
    assert(zst@ =~= zstd_magic());
    assert(bz2@ =~= bzip2_magic());
    if starts(head, &zip1) || starts(head, &zip2) {
        return Ok(Format::Zip);
    }
    if starts(head, &sevenz) {
        return Ok(Format::SevenZ);
    }
    if starts(head, &rar) {
        return Ok(Format::Rar);
    }
    if starts(head, &gz) {
        return Ok(
            if ext_matches(&p, ".tar.gz") || ext_matches(&p, ".tgz") {
                Format::TarGz
            } else {
                Format::Gz
            },
        );
    }
    if starts(head, &xz) {
        return Ok(
            if ext_matches(&p, ".tar.xz") || ext_matches(&p, ".txz") {
                Format::TarXz
            } else {
                Format::Xz
            },
        );
    }
    if starts(head, &zst) {
        return Ok(
            if ext_matches(&p, ".tar.zst") || ext_matches(&p, ".tzst") {
                Format::TarZst
            } else {
                Format::Zst
            },
        );
    }
    if starts(head, &bz2) {
        return Ok(
            if ext_matches(&p, ".tar.bz2") || ext_matches(&p, ".tbz2") {
                Format::TarBz2
            } else {
                Format::Bz2
            },
        );
    }
    if ext_matches(&p, ".tar") {
        return Ok(Format::Tar);
    }
    Err(ArchiveError::UnrecognizedFormat { path: string_of(p.as_slice()) })
}

proof fn lemma_write_case_0(p: Seq<char>)
    requires
        ends_with_lower(p, ".tar.gz"@),
    ensures
        write_format(p) == Some(Format::TarGz),
{
    reveal_strlit(".tar.gz");
    reveal_strlit(".tgz");
    reveal_strlit(".tar.bz2");
    reveal_strlit(".tbz2");
    reveal_strlit(".tar.xz");
    reveal_strlit(".txz");
    reveal_strlit(".tar.zst");
    reveal_strlit(".tzst");
    reveal_strlit(".tar");
    reveal_strlit(".zip");
    reveal_strlit(".7z");
    reveal_strlit(".gz");
    reveal_strlit(".bz2");
    reveal_strlit(".xz");
    reveal_strlit(".zst");
    reveal_strlit(".rar");
}

proof fn lemma_write_case_1(p: Seq<char>)
    requires
        ends_with_lower(p, ".tgz"@),
    ensures
        write_format(p) == Some(Format::TarGz),
{
    reveal_strlit(".tar.gz");
    reveal_strlit(".tgz");
    reveal_strlit(".tar.bz2");
    reveal_strlit(".tbz2");
    reveal_strlit(".tar.xz");
    reveal_strlit(".txz");
    reveal_strlit(".tar.zst");
    reveal_strlit(".tzst");
    reveal_strlit(".tar");
    reveal_strlit(".zip");
    reveal_strlit(".7z");
    reveal_strlit(".gz");
    reveal_strlit(".bz2");
    reveal_strlit(".xz");
    reveal_strlit(".zst");
    reveal_strlit(".rar");
    lemma_not_both(p, ".tgz"@, ".tar.gz"@);
}

proof fn lemma_write_case_2(p: Seq<char>)
    requires
        ends_with_lower(p, ".tar.bz2"@),
    ensures
        write_format(p) == Some(Format::TarBz2),
{
    reveal_strlit(".tar.gz");
    reveal_strlit(".tgz");
    reveal_strlit(".tar.bz2");
    reveal_strlit(".tbz2");
    reveal_strlit(".tar.xz");
    reveal_strlit(".txz");
    reveal_strlit(".tar.zst");
    reveal_strlit(".tzst");
    reveal_strlit(".tar");
    reveal_strlit(".zip");
    reveal_strlit(".7z");
    reveal_strlit(".gz");
    reveal_strlit(".bz2");
    reveal_strlit(".xz");
    reveal_strlit(".zst");
    reveal_strlit(".rar");
    lemma_not_both(p, ".tar.bz2"@, ".tar.gz"@);
    lemma_not_both(p, ".tar.bz2"@, ".tgz"@);
}

proof fn lemma_write_case_3(p: Seq<char>)
    requires
        ends_with_lower(p, ".tbz2"@),
    ensures
        write_format(p) == Some(Format::TarBz2),
{
    reveal_strlit(".tar.gz");
    reveal_strlit(".tgz");
    reveal_strlit(".tar.bz2");
    reveal_strlit(".tbz2");
    reveal_strlit(".tar.xz");
    reveal_strlit(".txz");
    reveal_strlit(".tar.zst");
    reveal_strlit(".tzst");
    reveal_strlit(".tar");
    reveal_strlit(".zip");
    reveal_strlit(".7z");
    reveal_strlit(".gz");
    reveal_strlit(".bz2");
    reveal_strlit(".xz");
    reveal_strlit(".zst");
    reveal_strlit(".rar");
    lemma_not_both(p, ".tbz2"@, ".tar.gz"@);
    lemma_not_both(p, ".tbz2"@, ".tgz"@);
    lemma_not_both(p, ".tbz2"@, ".tar.bz2"@);
}

proof fn lemma_write_case_4(p: Seq<char>)
    requires
        ends_with_lower(p, ".tar.xz"@),
    ensures
        write_format(p) == Some(Format::TarXz),
{
    reveal_strlit(".tar.gz");
    reveal_strlit(".tgz");
    reveal_strlit(".tar.bz2");
    reveal_strlit(".tbz2");
    reveal_strlit(".tar.xz");
    reveal_strlit(".txz");
    reveal_strlit(".tar.zst");
    reveal_strlit(".tzst");
    reveal_strlit(".tar");
    reveal_strlit(".zip");
    reveal_strlit(".7z");
    reveal_strlit(".gz");
    reveal_strlit(".bz2");
    reveal_strlit(".xz");
    reveal_strlit(".zst");
    reveal_strlit(".rar");
    lemma_not_both(p, ".tar.xz"@, ".tar.gz"@);
    lemma_not_both(p, ".tar.xz"@, ".tgz"@);
    lemma_not_both(p, ".tar.xz"@, ".tar.bz2"@);
    lemma_not_both(p, ".tar.xz"@, ".tbz2"@);
}

proof fn lemma_write_case_5(p: Seq<char>)
    requires
        ends_with_lower(p, ".txz"@),
    ensures
        write_format(p) == Some(Format::TarXz),
{
    reveal_strlit(".tar.gz");
    reveal_strlit(".tgz");
    reveal_strlit(".tar.bz2");
    reveal_strlit(".tbz2");
    reveal_strlit(".tar.xz");
    reveal_strlit(".txz");
    reveal_strlit(".tar.zst");
    reveal_strlit(".tzst");
    reveal_strlit(".tar");
    reveal_strlit(".zip");
    reveal_strlit(".7z");
    reveal_strlit(".gz");
    reveal_strlit(".bz2");
    reveal_strlit(".xz");
    reveal_strlit(".zst");
    reveal_strlit(".rar");
    lemma_not_both(p, ".txz"@, ".tar.gz"@);
    lemma_not_both(p, ".txz"@, ".tgz"@);
    lemma_not_both(p, ".txz"@, ".tar.bz2"@);
    lemma_not_both(p, ".txz"@, ".tbz2"@);
    lemma_not_both(p, ".txz"@, ".tar.xz"@);
}

proof fn lemma_write_case_6(p: Seq<char>)
    requires
        ends_with_lower(p, ".tar.zst"@),
    ensures
        write_format(p) == Some(Format::TarZst),
{
    reveal_strlit(".tar.gz");
    reveal_strlit(".tgz");
    reveal_strlit(".tar.bz2");
    reveal_strlit(".tbz2");
    reveal_strlit(".tar.xz");
    reveal_strlit(".txz");
    reveal_strlit(".tar.zst");
    reveal_strlit(".tzst");
    reveal_strlit(".tar");
    reveal_strlit(".zip");
    reveal_strlit(".7z");
    reveal_strlit(".gz");
    reveal_strlit(".bz2");
    reveal_strlit(".xz");
    reveal_strlit(".zst");
    reveal_strlit(".rar");
    lemma_not_both(p, ".tar.zst"@, ".tar.gz"@);
    lemma_not_both(p, ".tar.zst"@, ".tgz"@);
    lemma_not_both(p, ".tar.zst"@, ".tar.bz2"@);
    lemma_not_both(p, ".tar.zst"@, ".tbz2"@);
    lemma_not_both(p, ".tar.zst"@, ".tar.xz"@);
    lemma_not_both(p, ".tar.zst"@, ".txz"@);
}

proof fn lemma_write_case_7(p: Seq<char>)
    requires
        ends_with_lower(p, ".tzst"@),
    ensures
        write_format(p) == Some(Format::TarZst),
{
    reveal_strlit(".tar.gz");
    reveal_strlit(".tgz");
    reveal_strlit(".tar.bz2");
    reveal_strlit(".tbz2");
    reveal_strlit(".tar.xz");
    reveal_strlit(".txz");
    reveal_strlit(".tar.zst");
    reveal_strlit(".tzst");
    reveal_strlit(".tar");
    reveal_strlit(".zip");
    reveal_strlit(".7z");
    reveal_strlit(".gz");
    reveal_strlit(".bz2");
    reveal_strlit(".xz");
    reveal_strlit(".zst");
    reveal_strlit(".rar");
    lemma_not_both(p, ".tzst"@, ".tar.gz"@);
    lemma_not_both(p, ".tzst"@, ".tgz"@);
    lemma_not_both(p, ".tzst"@, ".tar.bz2"@);
    lemma_not_both(p, ".tzst"@, ".tbz2"@);
    lemma_not_both(p, ".tzst"@, ".tar.xz"@);
    lemma_not_both(p, ".tzst"@, ".txz"@);
    lemma_not_both(p, ".tzst"@, ".tar.zst"@);
}

proof fn lemma_write_case_8(p: Seq<char>)
    requires
        ends_with_lower(p, ".tar"@),
    ensures
        write_format(p) == Some(Format::Tar),
{
    reveal_strlit(".tar.gz");
    reveal_strlit(".tgz");
    reveal_strlit(".tar.bz2");
    reveal_strlit(".tbz2");
    reveal_strlit(".tar.xz");
    reveal_strlit(".txz");
    reveal_strlit(".tar.zst");
    reveal_strlit(".tzst");
    reveal_strlit(".tar");
    reveal_strlit(".zip");
    reveal_strlit(".7z");
    reveal_strlit(".gz");
    reveal_strlit(".bz2");
    reveal_strlit(".xz");
    reveal_strlit(".zst");
    reveal_strlit(".rar");
    lemma_not_both(p, ".tar"@, ".tar.gz"@);
    lemma_not_both(p, ".tar"@, ".tgz"@);
    lemma_not_both(p, ".tar"@, ".tar.bz2"@);
    lemma_not_both(p, ".tar"@, ".tbz2"@);
    lemma_not_both(p, ".tar"@, ".tar.xz"@);
    lemma_not_both(p, ".tar"@, ".txz"@);
    lemma_not_both(p, ".tar"@, ".tar.zst"@);
    lemma_not_both(p, ".tar"@, ".tzst"@);
}

proof fn lemma_write_case_9(p: Seq<char>)
    requires
        ends_with_lower(p, ".zip"@),
    ensures
        write_format(p) == Some(Format::Zip),
{
    reveal_strlit(".tar.gz");
    reveal_strlit(".tgz");
    reveal_strlit(".tar.bz2");
    reveal_strlit(".tbz2");
    reveal_strlit(".tar.xz");
    reveal_strlit(".txz");
    reveal_strlit(".tar.zst");
    reveal_strlit(".tzst");
    reveal_strlit(".tar");
    reveal_strlit(".zip");
    reveal_strlit(".7z");
    reveal_strlit(".gz");
    reveal_strlit(".bz2");
    reveal_strlit(".xz");
    reveal_strlit(".zst");
    reveal_strlit(".rar");
    lemma_not_both(p, ".zip"@, ".tar.gz"@);
    lemma_not_both(p, ".zip"@, ".tgz"@);
    lemma_not_both(p, ".zip"@, ".tar.bz2"@);
    lemma_not_both(p, ".zip"@, ".tbz2"@);
    lemma_not_both(p, ".zip"@, ".tar.xz"@);
    lemma_not_both(p, ".zip"@, ".txz"@);
    lemma_not_both(p, ".zip"@, ".tar.zst"@);
    lemma_not_both(p, ".zip"@, ".tzst"@);
    lemma_not_both(p, ".zip"@, ".tar"@);
}

proof fn lemma_write_case_10(p: Seq<char>)
    requires
        ends_with_lower(p, ".7z"@),
    ensures
        write_format(p) == Some(Format::SevenZ),
{
    reveal_strlit(".tar.gz");
    reveal_strlit(".tgz");
    reveal_strlit(".tar.bz2");
    reveal_strlit(".tbz2");
    reveal_strlit(".tar.xz");
    reveal_strlit(".txz");
    reveal_strlit(".tar.zst");
    reveal_strlit(".tzst");
    reveal_strlit(".tar");
    reveal_strlit(".zip");
    reveal_strlit(".7z");
    reveal_strlit(".gz");
    reveal_strlit(".bz2");
    reveal_strlit(".xz");
    reveal_strlit(".zst");
    reveal_strlit(".rar");
    lemma_not_both(p, ".7z"@, ".tar.gz"@);
    lemma_not_both(p, ".7z"@, ".tgz"@);
    lemma_not_both(p, ".7z"@, ".tar.bz2"@);
    lemma_not_both(p, ".7z"@, ".tbz2"@);
    lemma_not_both(p, ".7z"@, ".tar.xz"@);
    lemma_not_both(p, ".7z"@, ".txz"@);
    lemma_not_both(p, ".7z"@, ".tar.zst"@);
    lemma_not_both(p, ".7z"@, ".tzst"@);
    lemma_not_both(p, ".7z"@, ".tar"@);
    lemma_not_both(p, ".7z"@, ".zip"@);
}

proof fn lemma_write_case_11(p: Seq<char>)
    requires
        ends_with_lower(p, ".gz"@),
        !ends_with_lower(p, ".tar.gz"@),
    ensures
        write_format(p) == Some(Format::Gz),
{
    reveal_strlit(".tar.gz");
    reveal_strlit(".tgz");
    reveal_strlit(".tar.bz2");
    reveal_strlit(".tbz2");
    reveal_strlit(".tar.xz");
    reveal_strlit(".txz");
    reveal_strlit(".tar.zst");
    reveal_strlit(".tzst");
    reveal_strlit(".tar");
    reveal_strlit(".zip");
    reveal_strlit(".7z");
    reveal_strlit(".gz");
    reveal_strlit(".bz2");
    reveal_strlit(".xz");
    reveal_strlit(".zst");
    reveal_strlit(".rar");
    lemma_not_both(p, ".gz"@, ".tgz"@);
    lemma_not_both(p, ".gz"@, ".tar.bz2"@);
    lemma_not_both(p, ".gz"@, ".tbz2"@);
    lemma_not_both(p, ".gz"@, ".tar.xz"@);
    lemma_not_both(p, ".gz"@, ".txz"@);
    lemma_not_both(p, ".gz"@, ".tar.zst"@);
    lemma_not_both(p, ".gz"@, ".tzst"@);
    lemma_not_both(p, ".gz"@, ".tar"@);
    lemma_not_both(p, ".gz"@, ".zip"@);
    lemma_not_both(p, ".gz"@, ".7z"@);
}

proof fn lemma_write_case_12(p: Seq<char>)
    requires
        ends_with_lower(p, ".bz2"@),
        !ends_with_lower(p, ".tar.bz2"@),
    ensures
        write_format(p) == Some(Format::Bz2),
{
    reveal_strlit(".tar.gz");
    reveal_strlit(".tgz");
    reveal_strlit(".tar.bz2");
    reveal_strlit(".tbz2");
    reveal_strlit(".tar.xz");
    reveal_strlit(".txz");
    reveal_strlit(".tar.zst");
    reveal_strlit(".tzst");
    reveal_strlit(".tar");
    reveal_strlit(".zip");
    reveal_strlit(".7z");
    reveal_strlit(".gz");
    reveal_strlit(".bz2");
    reveal_strlit(".xz");
    reveal_strlit(".zst");
    reveal_strlit(".rar");
    lemma_not_both(p, ".bz2"@, ".tar.gz"@);
    lemma_not_both(p, ".bz2"@, ".tgz"@);
    lemma_not_both(p, ".bz2"@, ".tbz2"@);
    lemma_not_both(p, ".bz2"@, ".tar.xz"@);
    lemma_not_both(p, ".bz2"@, ".txz"@);
    lemma_not_both(p, ".bz2"@, ".tar.zst"@);
    lemma_not_both(p, ".bz2"@, ".tzst"@);
    lemma_not_both(p, ".bz2"@, ".tar"@);
    lemma_not_both(p, ".bz2"@, ".zip"@);
    lemma_not_both(p, ".bz2"@, ".7z"@);
    lemma_not_both(p, ".bz2"@, ".gz"@);
}

proof fn lemma_write_case_13(p: Seq<char>)
    requires
        ends_with_lower(p, ".xz"@),
        !ends_with_lower(p, ".tar.xz"@),
    ensures
        write_format(p) == Some(Format::Xz),
{
    reveal_strlit(".tar.gz");
    reveal_strlit(".tgz");
    reveal_strlit(".tar.bz2");
    reveal_strlit(".tbz2");
    reveal_strlit(".tar.xz");
    reveal_strlit(".txz");
    reveal_strlit(".tar.zst");
    reveal_strlit(".tzst");
    reveal_strlit(".tar");
    reveal_strlit(".zip");
    reveal_strlit(".7z");
    reveal_strlit(".gz");
    reveal_strlit(".bz2");
    reveal_strlit(".xz");
    reveal_strlit(".zst");
    reveal_strlit(".rar");
    lemma_not_both(p, ".xz"@, ".tar.gz"@);
    lemma_not_both(p, ".xz"@, ".tgz"@);
    lemma_not_both(p, ".xz"@, ".tar.bz2"@);
    lemma_not_both(p, ".xz"@, ".tbz2"@);
    lemma_not_both(p, ".xz"@, ".txz"@);
    lemma_not_both(p, ".xz"@, ".tar.zst"@);
    lemma_not_both(p, ".xz"@, ".tzst"@);
    lemma_not_both(p, ".xz"@, ".tar"@);
    lemma_not_both(p, ".xz"@, ".zip"@);
    lemma_not_both(p, ".xz"@, ".7z"@);
    lemma_not_both(p, ".xz"@, ".gz"@);
    lemma_not_both(p, ".xz"@, ".bz2"@);
}

proof fn lemma_write_case_14(p: Seq<char>)
    requires
        ends_with_lower(p, ".zst"@),
        !ends_with_lower(p, ".tar.zst"@),
    ensures
        write_format(p) == Some(Format::Zst),
{
    reveal_strlit(".tar.gz");
    reveal_strlit(".tgz");
    reveal_strlit(".tar.bz2");
    reveal_strlit(".tbz2");
    reveal_strlit(".tar.xz");
    reveal_strlit(".txz");
    reveal_strlit(".tar.zst");
    reveal_strlit(".tzst");
    reveal_strlit(".tar");
    reveal_strlit(".zip");
    reveal_strlit(".7z");
    reveal_strlit(".gz");
    reveal_strlit(".bz2");
    reveal_strlit(".xz");
    reveal_strlit(".zst");
    reveal_strlit(".rar");
    lemma_not_both(p, ".zst"@, ".tar.gz"@);
    lemma_not_both(p, ".zst"@, ".tgz"@);
    lemma_not_both(p, ".zst"@, ".tar.bz2"@);
    lemma_not_both(p, ".zst"@, ".tbz2"@);
    lemma_not_both(p, ".zst"@, ".tar.xz"@);
    lemma_not_both(p, ".zst"@, ".txz"@);
    lemma_not_both(p, ".zst"@, ".tzst"@);
    lemma_not_both(p, ".zst"@, ".tar"@);
    lemma_not_both(p, ".zst"@, ".zip"@);
    lemma_not_both(p, ".zst"@, ".7z"@);
    lemma_not_both(p, ".zst"@, ".gz"@);
    lemma_not_both(p, ".zst"@, ".bz2"@);
    lemma_not_both(p, ".zst"@, ".xz"@);
}

proof fn lemma_write_case_15(p: Seq<char>)
    requires
        ends_with_lower(p, ".rar"@),
    ensures
        write_format(p) == Some(Format::Rar),
{
    reveal_strlit(".tar.gz");
    reveal_strlit(".tgz");
    reveal_strlit(".tar.bz2");
    reveal_strlit(".tbz2");
    reveal_strlit(".tar.xz");
    reveal_strlit(".txz");
    reveal_strlit(".tar.zst");
    reveal_strlit(".tzst");
    reveal_strlit(".tar");
    reveal_strlit(".zip");
    reveal_strlit(".7z");
    reveal_strlit(".gz");
    reveal_strlit(".bz2");
    reveal_strlit(".xz");
    reveal_strlit(".zst");
    reveal_strlit(".rar");
    lemma_not_both(p, ".rar"@, ".tar.gz"@);
    lemma_not_both(p, ".rar"@, ".tgz"@);
    lemma_not_both(p, ".rar"@, ".tar.bz2"@);
    lemma_not_both(p, ".rar"@, ".tbz2"@);
    lemma_not_both(p, ".rar"@, ".tar.xz"@);
    lemma_not_both(p, ".rar"@, ".txz"@);
    lemma_not_both(p, ".rar"@, ".tar.zst"@);
    lemma_not_both(p, ".rar"@, ".tzst"@);
    lemma_not_both(p, ".rar"@, ".tar"@);
    lemma_not_both(p, ".rar"@, ".zip"@);
    lemma_not_both(p, ".rar"@, ".7z"@);
    lemma_not_both(p, ".rar"@, ".gz"@);
    lemma_not_both(p, ".rar"@, ".bz2"@);
    lemma_not_both(p, ".rar"@, ".xz"@);
    lemma_not_both(p, ".rar"@, ".zst"@);
}

/// The format that writing to `p` picks, by its extension matched without
/// case: a tarball compressed with gzip, bzip2, xz or zstd for `.tar.gz` or
/// `.tgz`, `.tar.bz2` or `.tbz2`, `.tar.xz` or `.txz`, `.tar.zst` or
/// `.tzst`; a plain tar for `.tar`; zip, 7z and rar for `.zip`, `.7z` and
/// `.rar`; a single compressed file for `.gz`, `.bz2`, `.xz` or `.zst` that
/// is not a tarball's; none for any other name.
pub proof fn lemma_write_formats(p: Seq<char>)
    ensures
        ends_with_lower(p, ".tar.gz"@) ==> write_format(p) == Some(Format::TarGz),
        ends_with_lower(p, ".tgz"@) ==> write_format(p) == Some(Format::TarGz),
        ends_with_lower(p, ".tar.bz2"@) ==> write_format(p) == Some(Format::TarBz2),
        ends_with_lower(p, ".tbz2"@) ==> write_format(p) == Some(Format::TarBz2),
        ends_with_lower(p, ".tar.xz"@) ==> write_format(p) == Some(Format::TarXz),
        ends_with_lower(p, ".txz"@) ==> write_format(p) == Some(Format::TarXz),
        ends_with_lower(p, ".tar.zst"@) ==> write_format(p) == Some(Format::TarZst),
        ends_with_lower(p, ".tzst"@) ==> write_format(p) == Some(Format::TarZst),
        ends_with_lower(p, ".tar"@) ==> write_format(p) == Some(Format::Tar),
        ends_with_lower(p, ".zip"@) ==> write_format(p) == Some(Format::Zip),
        ends_with_lower(p, ".7z"@) ==> write_format(p) == Some(Format::SevenZ),
        ends_with_lower(p, ".gz"@) && !ends_with_lower(p, ".tar.gz"@) ==> write_format(p) == Some(Format::Gz),
        ends_with_lower(p, ".bz2"@) && !ends_with_lower(p, ".tar.bz2"@) ==> write_format(p) == Some(Format::Bz2),
        ends_with_lower(p, ".xz"@) && !ends_with_lower(p, ".tar.xz"@) ==> write_format(p) == Some(Format::Xz),
        ends_with_lower(p, ".zst"@) && !ends_with_lower(p, ".tar.zst"@) ==> write_format(p) == Some(Format::Zst),
        ends_with_lower(p, ".rar"@) ==> write_format(p) == Some(Format::Rar),
        (!ends_with_lower(p, ".tar.gz"@) && !ends_with_lower(p, ".tgz"@) && !ends_with_lower(p, ".tar.bz2"@) && !ends_with_lower(p, ".tbz2"@) && !ends_with_lower(p, ".tar.xz"@) && !ends_with_lower(p, ".txz"@) && !ends_with_lower(p, ".tar.zst"@) && !ends_with_lower(p, ".tzst"@) && !ends_with_lower(p, ".tar"@) && !ends_with_lower(p, ".zip"@) && !ends_with_lower(p, ".7z"@) && !ends_with_lower(p, ".gz"@) && !ends_with_lower(p, ".bz2"@) && !ends_with_lower(p, ".xz"@) && !ends_with_lower(p, ".zst"@) && !ends_with_lower(p, ".rar"@)) ==> write_format(p) is None,
{
    if ends_with_lower(p, ".tar.gz"@) {
        lemma_write_case_0(p);
    }
    if ends_with_lower(p, ".tgz"@) {
        lemma_write_case_1(p);
    }
    if ends_with_lower(p, ".tar.bz2"@) {
        lemma_write_case_2(p);
    }
    if ends_with_lower(p, ".tbz2"@) {
        lemma_write_case_3(p);
    }
    if ends_with_lower(p, ".tar.xz"@) {
        lemma_write_case_4(p);
    }
    if ends_with_lower(p, ".txz"@) {
        lemma_write_case_5(p);
    }
    if ends_with_lower(p, ".tar.zst"@) {
        lemma_write_case_6(p);
    }
    if ends_with_lower(p, ".tzst"@) {
        lemma_write_case_7(p);
    }
    if ends_with_lower(p, ".tar"@) {
        lemma_write_case_8(p);
    }
    if ends_with_lower(p, ".zip"@) {
        lemma_write_case_9(p);
    }
    if ends_with_lower(p, ".7z"@) {
        lemma_write_case_10(p);
    }
    if ends_with_lower(p, ".gz"@) && !ends_with_lower(p, ".tar.gz"@) {
        lemma_write_case_11(p);
    }
    if ends_with_lower(p, ".bz2"@) && !ends_with_lower(p, ".tar.bz2"@) {
        lemma_write_case_12(p);
    }
    if ends_with_lower(p, ".xz"@) && !ends_with_lower(p, ".tar.xz"@) {
        lemma_write_case_13(p);
    }
    if ends_with_lower(p, ".zst"@) && !ends_with_lower(p, ".tar.zst"@) {
        lemma_write_case_14(p);
    }
    if ends_with_lower(p, ".rar"@) {
        lemma_write_case_15(p);
    }
    reveal_strlit(".tar.gz");
    reveal_strlit(".tgz");
    reveal_strlit(".tar.bz2");
    reveal_strlit(".tbz2");
    reveal_strlit(".tar.xz");
    reveal_strlit(".txz");
    reveal_strlit(".tar.zst");
    reveal_strlit(".tzst");
    reveal_strlit(".tar");
    reveal_strlit(".zip");
    reveal_strlit(".7z");
    reveal_strlit(".gz");
    reveal_strlit(".bz2");
    reveal_strlit(".xz");
    reveal_strlit(".zst");
    reveal_strlit(".rar");
}

/// A sequence that begins with a signature begins with its first byte.
proof fn lemma_starts_first(b: Seq<u8>, sig: Seq<u8>)
    requires
        starts_with(b, sig),
        sig.len() > 0,
    ensures
        b[0] == sig[0],
{
    assert(b.take(sig.len() as int)[0] == b[0]);
}

/// The format that reading an archive named `p` whose first bytes are `b`
/// picks: the signature decides the container (zip `PK\x03\x04` or
/// `PK\x05\x06`, 7z, rar) or the compressor (gzip `1F 8B`, xz, zstd, bzip2
/// `BZh`); for a compressor, the name decides between a tarball (`.tar.gz` or
/// `.tgz`, and so on) and a single compressed file; with no signature, only a
/// `.tar` name is read, as a plain tar.
pub proof fn lemma_read_formats(p: Seq<char>, b: Seq<u8>)
    ensures
        starts_with(b, seq![0x50u8, 0x4Bu8, 0x03u8, 0x04u8]) || starts_with(
            b,
            seq![0x50u8, 0x4Bu8, 0x05u8, 0x06u8],
        ) ==> read_format(p, b) == Some(Format::Zip),
        starts_with(b, seq![0x37u8, 0x7Au8, 0xBCu8, 0xAFu8, 0x27u8, 0x1Cu8]) ==> read_format(p, b)
            == Some(Format::SevenZ),
        starts_with(b, seq![0x52u8, 0x61u8, 0x72u8, 0x21u8]) ==> read_format(p, b) == Some(
            Format::Rar,
        ),
        starts_with(b, seq![0x1Fu8, 0x8Bu8]) ==> read_format(p, b) == Some(
            if ends_with_lower(p, ".tar.gz"@) || ends_with_lower(p, ".tgz"@) {
                Format::TarGz
            } else {
                Format::Gz
            },
        ),
        starts_with(b, seq![0xFDu8, 0x37u8, 0x7Au8, 0x58u8, 0x5Au8, 0x00u8]) ==> read_format(p, b)
            == Some(
            if ends_with_lower(p, ".tar.xz"@) || ends_with_lower(p, ".txz"@) {
                Format::TarXz
            } else {
                Format::Xz
            },
        ),
        starts_with(b, seq![0x28u8, 0xB5u8, 0x2Fu8, 0xFDu8]) ==> read_format(p, b) == Some(
            if ends_with_lower(p, ".tar.zst"@) || ends_with_lower(p, ".tzst"@) {
                Format::TarZst
            } else {
                Format::Zst
            },
        ),
        starts_with(b, seq![0x42u8, 0x5Au8, 0x68u8]) ==> read_format(p, b) == Some(
            if ends_with_lower(p, ".tar.bz2"@) || ends_with_lower(p, ".tbz2"@) {
                Format::TarBz2
            } else {
                Format::Bz2
            },
        ),
        b.len() == 0 ==> read_format(p, b) == (if ends_with_lower(p, ".tar"@) {
            Some(Format::Tar)
        } else {
            None
        }),
{
    let sigs = seq![
        zip_local_magic(),
        zip_empty_magic(),
        sevenz_magic(),
        rar_magic(),
        gzip_magic(),
        xz_magic(),
        zstd_magic(),
        bzip2_magic(),
    ];
    assert forall|k: int| 0 <= k < 8 && #[trigger] starts_with(b, sigs[k]) implies b[0] == sigs[k][0] by {
        lemma_starts_first(b, sigs[k]);
    }
    assert(starts_with(b, zip_local_magic()) ==> b[0] == 0x50u8) by {
        assert(sigs[0] == zip_local_magic());
    }
    assert(starts_with(b, zip_empty_magic()) ==> b[0] == 0x50u8) by {
        assert(sigs[1] == zip_empty_magic());
    }
    assert(starts_with(b, sevenz_magic()) ==> b[0] == 0x37u8) by {
        assert(sigs[2] == sevenz_magic());
    }
    assert(starts_with(b, rar_magic()) ==> b[0] == 0x52u8) by {
        assert(sigs[3] == rar_magic());
    }
    assert(starts_with(b, gzip_magic()) ==> b[0] == 0x1Fu8) by {
        assert(sigs[4] == gzip_magic());
    }
    assert(starts_with(b, xz_magic()) ==> b[0] == 0xFDu8) by {
        assert(sigs[5] == xz_magic());
    }
    assert(starts_with(b, zstd_magic()) ==> b[0] == 0x28u8) by {
        assert(sigs[6] == zstd_magic());
    }
    assert(starts_with(b, bzip2_magic()) ==> b[0] == 0x42u8) by {
        assert(sigs[7] == bzip2_magic());
    }
}

} // verus!
