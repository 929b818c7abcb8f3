//! The library's errors and the text each one reads as.
use vstd::prelude::*;
use crate::archive::format::{format_name, Format};
use crate::text::{chars_of, concat_chars, string_of};

verus! {

/// An archive operation, as error messages name it.
#[derive(Clone, Copy, Debug, PartialEq, Eq, Structural)]
pub enum Operation {
    Create,
    List,
    Extract,
    Test,
}

/// How an error message names an operation.
pub open spec fn operation_word(op: Operation) -> Seq<char> {
    match op {
        Operation::Create => "creating"@,
        Operation::List => "listing"@,
        Operation::Extract => "extracting"@,
        Operation::Test => "testing"@,
    }
}

/// Why an archive operation failed.
#[derive(Debug)]
pub enum ArchiveError {
    /// The output name has no extension that names a format.
    UnknownOutputFormat { path: String },
    /// Neither the magic bytes nor the extension identify the archive.
    UnrecognizedFormat { path: String },
    /// A single-file compressor was asked to hold several inputs or a directory.
    SingleFileOnly { format: Format },
    /// The format is known, but the operation is not available for it.
    Unsupported { operation: Operation, format: Format },
    /// The target exists and overwriting was not asked for.
    AlreadyExists { path: String },
    /// An input to archive does not exist.
    InputMissing { path: String },
    /// An archive entry's name would escape the destination.
    UnsafePath { name: String },
    /// A compressor, container or file-system step failed; `context` says what
    /// was being done, `detail` is the underlying error's text.
    Failed { context: String, detail: String },
    /// A read or write failed with the given text, with nothing said of where.
    Io { detail: String },
}

/// An error, with its texts as character sequences.
pub enum ErrorView {
    UnknownOutputFormat(Seq<char>),
    UnrecognizedFormat(Seq<char>),
    SingleFileOnly(Format),
    Unsupported(Operation, Format),
    AlreadyExists(Seq<char>),
    InputMissing(Seq<char>),
    UnsafePath(Seq<char>),
    Failed(Seq<char>, Seq<char>),
    Io(Seq<char>),
}

/// Whether `e` is a failure whose context is `c`.
pub open spec fn failed_in(e: ErrorView, c: Seq<char>) -> bool {
    match e {
        ErrorView::Failed(c2, _) => c2 == c,
        _ => false,
    }
}

impl View for ArchiveError {
    type V = ErrorView;

    open spec fn view(&self) -> ErrorView {
        match self {
            ArchiveError::UnknownOutputFormat { path } => ErrorView::UnknownOutputFormat(path@),
            ArchiveError::UnrecognizedFormat { path } => ErrorView::UnrecognizedFormat(path@),
            ArchiveError::SingleFileOnly { format } => ErrorView::SingleFileOnly(*format),
            ArchiveError::Unsupported { operation, format } => ErrorView::Unsupported(
                *operation,
                *format,
            ),
            ArchiveError::AlreadyExists { path } => ErrorView::AlreadyExists(path@),
            ArchiveError::InputMissing { path } => ErrorView::InputMissing(path@),
            ArchiveError::UnsafePath { name } => ErrorView::UnsafePath(name@),
            ArchiveError::Failed { context, detail } => ErrorView::Failed(context@, detail@),
            ArchiveError::Io { detail } => ErrorView::Io(detail@),
        }
    }
}

/// The text of an error.
pub open spec fn error_text(e: ArchiveError) -> Seq<char> {
    match e {
        ArchiveError::UnknownOutputFormat { path } => "cannot determine archive format from output name: "@
            + path@,
        ArchiveError::UnrecognizedFormat { path } => "unrecognized or unsupported archive format: "@
            + path@,
        ArchiveError::SingleFileOnly { format } => format_name(format)
            + " compresses a single file; use a .tar.* format to archive multiple files or a directory"@,
        ArchiveError::Unsupported { operation, format } => operation_word(operation) + " "@
            + format_name(format) + " archives is not supported yet"@,
        ArchiveError::AlreadyExists { path } => path@ + " already exists (use --force to overwrite)"@,
        ArchiveError::InputMissing { path } => "input does not exist: "@ + path@,
        ArchiveError::UnsafePath { name } => "unsafe path in archive: "@ + name@,
        ArchiveError::Failed { context, detail } => context@ + ": "@ + detail@,
        ArchiveError::Io { detail } => detail@,
    }
}

fn join2(a: &str, b: &str) -> (r: Vec<char>)
    ensures
        r@ == a@ + b@,
{
    concat_chars(&chars_of(a), &chars_of(b))
}

fn join3(a: &str, b: &str, c: &str) -> (r: Vec<char>)
    ensures
        r@ == a@ + b@ + c@,
{
    let ab = join2(a, b);
    concat_chars(&ab, &chars_of(c))
}

impl Operation {
    /// How an error message names the operation.
    pub fn word(&self) -> (r: &'static str)
        ensures
            r@ == operation_word(*self),
    {
        match self {
            Operation::Create => "creating",
            Operation::List => "listing",
            Operation::Extract => "extracting",
            Operation::Test => "testing",
        }
    }
}

impl ArchiveError {
    /// The error's message.
    pub fn message(&self) -> (r: String)
        ensures
            r@ == error_text(*self),
    {
        let v = match self {
            ArchiveError::UnknownOutputFormat { path } => join2(
                "cannot determine archive format from output name: ",
                path.as_str(),
            ),
            ArchiveError::UnrecognizedFormat { path } => join2(
                "unrecognized or unsupported archive format: ",
                path.as_str(),
            ),
            ArchiveError::SingleFileOnly { format } => join2(
                format.name(),
                " compresses a single file; use a .tar.* format to archive multiple files or a directory",
            ),
            ArchiveError::Unsupported { operation, format } => {
                let a = join3(operation.word(), " ", format.name());
                concat_chars(&a, &chars_of(" archives is not supported yet"))
            },
            ArchiveError::AlreadyExists { path } => join2(
                path.as_str(),
                " already exists (use --force to overwrite)",
            ),
            ArchiveError::InputMissing { path } => join2("input does not exist: ", path.as_str()),
            ArchiveError::UnsafePath { name } => join2("unsafe path in archive: ", name.as_str()),
            ArchiveError::Failed { context, detail } => join3(
                context.as_str(),
                ": ",
                detail.as_str(),
            ),
            ArchiveError::Io { detail } => chars_of(detail.as_str()),
        };
        string_of(v.as_slice())
    }
}

} // verus!
