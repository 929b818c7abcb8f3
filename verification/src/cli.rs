//! Choices the command line offers that the library itself acts on.
use vstd::prelude::*;

verus! {

/// `zip::CompressionMethod`.
#[verifier::external_type_specification]
#[verifier::external_body]
pub struct ExCompressionMethod(zip::CompressionMethod);

/// How entries of a `.zip` archive are compressed (other formats use the
/// compression their extension implies).
#[derive(Clone, Copy, Debug, PartialEq, Eq, Structural)]
pub enum Compression {
    /// No compression, just store the files.
    Store,
    /// DEFLATE, the standard, widely compatible ZIP compression.
    Deflate,
    /// BZIP2: slower but often a smaller archive.
    Bzip2,
    /// Zstandard: fast with a good compression ratio.
    Zstd,
}

/// The number the zip format gives this choice's method: 0 stored, 8
/// deflated, 12 bzip2, 93 zstd.
pub open spec fn method_code(c: Compression) -> u16 {
    match c {
        Compression::Store => 0,
        Compression::Deflate => 8,
        Compression::Bzip2 => 12,
        Compression::Zstd => 93,
    }
}

/// The zip crate's method for the method number `code`.
pub uninterp spec fn zip_method_named(code: u16) -> zip::CompressionMethod;

/// `zip::CompressionMethod::from_u16`: the zip crate's method for a method
/// number (0 `Stored`, 8 `Deflated`, 12 `Bzip2`, 93 `Zstd`). The contract
/// claims that the method is a function of the number; what an archive
/// records of it is stated where entries are read back.
#[verifier::external_body]
#[allow(deprecated)]
fn zip_method_of(code: u16) -> (r: zip::CompressionMethod)
    ensures
        r == zip_method_named(code),
{
    zip::CompressionMethod::from_u16(code)
}

impl Compression {
    /// The number the zip format gives this choice's method.
    pub fn code(self) -> (r: u16)
        ensures
            r == method_code(self),
    {
        match self {
            Compression::Store => 0,
            Compression::Deflate => 8,
            Compression::Bzip2 => 12,
            Compression::Zstd => 93,
        }
    }

    /// The `zip` crate's method for this choice: the one with its number.
    pub fn to_zip_method(self) -> (r: zip::CompressionMethod)
        ensures
            r == zip_method_named(method_code(self)),
    {
        zip_method_of(self.code())
    }
}

/// The method numbers are those the zip format assigns: 0 for stored
/// entries, 8 for deflate, 12 for bzip2 and 93 for zstd; no two choices
/// share a number.
pub proof fn lemma_method_numbers(c: Compression, d: Compression)
    ensures
        c == Compression::Store ==> method_code(c) == 0,
        c == Compression::Deflate ==> method_code(c) == 8,
        c == Compression::Bzip2 ==> method_code(c) == 12,
        c == Compression::Zstd ==> method_code(c) == 93,
        method_code(c) == method_code(d) ==> c == d,
{
}

/// The parsed command line: one subcommand.
#[derive(Debug)]
pub struct Cli {
    pub command: Command,
}

/// What the command line asks for.
#[derive(Debug)]
pub enum Command {
    /// Create a new archive from files and/or directories. The format is
    /// chosen by the output's extension; `method` applies to `.zip` only.
    Create { output: String, inputs: Vec<String>, method: Compression, force: bool },
    /// Extract the contents of an archive into `dest`.
    Extract { archive: String, dest: String, force: bool },
    /// List the contents of an archive.
    List { archive: String },
    /// Extract an archive into the folder that contains it.
    ExtractHere { archive: String },
    /// Extract an archive into a new subfolder named after it.
    ExtractTo { archive: String },
    /// Test the integrity of an archive (reads every entry to verify it).
    Test { archive: String },
    /// Compress a file or folder into a .zip next to it.
    CompressZip { path: String },
    /// Compress a file or folder into a .tar.gz next to it.
    CompressTargz { path: String },
}

} // verus!
