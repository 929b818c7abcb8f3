//! A multi-format archive library (zip, tar, tar.gz/bz2/xz/zst, gz/bz2/xz/zst):
//! format detection, entry naming and path safety, and archive building,
//! listing, extraction and integrity checks over in-memory bytes; plus the
//! decisions of the command line and desktop front ends (where to extract,
//! what to name a new archive, what to open at launch, how the archive
//! browser navigates and selects).
use vstd::prelude::*;

pub mod archive;
pub mod browser;
pub mod cli;
pub mod codec;
pub mod error;
pub mod launch;
pub mod paths;
pub mod shell;
pub mod text;
pub mod tree;

verus! {

} // verus!
