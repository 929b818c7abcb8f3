//! Destinations and output names for the shell actions ("Extract Here",
//! "Extract to name\", "Compress to .zip/.tar.gz"). Each takes a `windows`
//! flag saying whether paths are read and built as on Windows.
use vstd::prelude::*;
use crate::paths::{
    file_name_on, file_name_on_exec, file_stem_on, file_stem_on_exec, join_path_on,
    join_path_on_exec, parent_or_dot_on, parent_or_dot_on_exec,
};
use crate::text::{
    chars_of, concat_chars, ends_with_lower, ends_with_lower_exec, lemma_not_both,
    string_from_vec, take_chars,
};

verus! {

/// The archive and compressor suffixes that "Extract to" strips, in the order
/// in which they are tried.
pub open spec fn known_suffixes() -> Seq<Seq<char>> {
    seq![
        ".tar.gz"@,
        ".tar.bz2"@,
        ".tar.xz"@,
        ".tar.zst"@,
        ".tgz"@,
        ".tbz2"@,
        ".txz"@,
        ".tzst"@,
        ".tar"@,
        ".zip"@,
        ".7z"@,
        ".rar"@,
        ".gz"@,
        ".bz2"@,
        ".xz"@,
        ".zst"@,
    ]
}

fn known_suffix(i: usize) -> (r: &'static str)
    requires
        i < 16,
    ensures
        r@ == known_suffixes()[i as int],
{
    match i {
        0 => ".tar.gz",
        1 => ".tar.bz2",
        2 => ".tar.xz",
        3 => ".tar.zst",
        4 => ".tgz",
        5 => ".tbz2",
        6 => ".txz",
        7 => ".tzst",
        8 => ".tar",
        9 => ".zip",
        10 => ".7z",
        11 => ".rar",
        12 => ".gz",
        13 => ".bz2",
        14 => ".xz",
        _ => ".zst",
    }
}

/// Index of the first known suffix that `name` (lower-cased) ends with, if any.
pub open spec fn first_known_suffix(name: Seq<char>, from: int) -> Option<int>
    decreases 16 - from,
{
    if from >= 16 || from < 0 {
        None
    } else if ends_with_lower(name, known_suffixes()[from]) {
        Some(from)
    } else {
        first_known_suffix(name, from + 1)
    }
}

/// The folder name that "Extract to" uses for an archive file name.
pub open spec fn extract_folder_name(fname: Seq<char>) -> Seq<char> {
    match first_known_suffix(fname, 0) {
        Some(i) => fname.take(fname.len() - known_suffixes()[i].len()),
        None => fname + "_extracted"@,
    }
}

/// Where "Extract Here" puts an archive's entries: its own directory.
pub open spec fn here_dir(archive: Seq<char>, windows: bool) -> Seq<char> {
    parent_or_dot_on(archive, windows)
}

/// Where "Extract to" puts an archive's entries: a sibling folder named after
/// the archive.
pub open spec fn to_dir(archive: Seq<char>, windows: bool) -> Seq<char> {
    let fname = match file_name_on(archive, windows) {
        Some(f) => f,
        None => Seq::<char>::empty(),
    };
    join_path_on(parent_or_dot_on(archive, windows), extract_folder_name(fname), windows)
}

/// The output archive of a quick-compress action on `path` with extension
/// `ext`: next to the item, named by the folder name or the file stem.
pub open spec fn output_for(path: Seq<char>, ext: Seq<char>, is_dir: bool, windows: bool) -> Seq<
    char,
> {
    let base = if is_dir {
        file_name_on(path, windows)
    } else {
        file_stem_on(path, windows)
    };
    let base = match base {
        Some(b) => b,
        None => Seq::<char>::empty(),
    };
    join_path_on(parent_or_dot_on(path, windows), base + ext, windows)
}

/// Destination for "Extract Here": the archive's own directory.
pub fn extract_here_dir(archive: &str, windows: bool) -> (r: String)
    ensures
        r@ == here_dir(archive@, windows),
{
    let a = chars_of(archive);
    string_from_vec(&parent_or_dot_on_exec(&a, windows))
}

fn folder_name_exec(fname: &Vec<char>) -> (r: Vec<char>)
    ensures
        r@ == extract_folder_name(fname@),
{
    let mut i: usize = 0;
    while i < 16
        invariant
            i <= 16,
            first_known_suffix(fname@, 0) == first_known_suffix(fname@, i as int),
        decreases 16 - i,
    {
        let suf = chars_of(known_suffix(i));
        if ends_with_lower_exec(fname, &suf) {
            return take_chars(fname, fname.len() - suf.len());
        }
        i = i + 1;
    }
    let tail = chars_of("_extracted");
    concat_chars(fname, &tail)
}

/// Destination for "Extract to": the archive's directory joined with the file
/// name minus a recognised archive suffix (or `<name>_extracted`).
pub fn extract_to_dir(archive: &str, windows: bool) -> (r: String)
    ensures
        r@ == to_dir(archive@, windows),
{
    let a = chars_of(archive);
    let fname = match file_name_on_exec(&a, windows) {
        Some(f) => f,
        None => Vec::new(),
    };
    let folder = folder_name_exec(&fname);
    let parent = parent_or_dot_on_exec(&a, windows);
    string_from_vec(&join_path_on_exec(&parent, &folder, windows))
}

/// Output archive path for a quick-compress action: the item's parent
/// directory + base name + `ext` (which includes the leading dot). The base
/// name is the directory name for a folder (`is_dir`), or the file stem for a
/// file.
pub fn archive_output(path: &str, ext: &str, is_dir: bool, windows: bool) -> (r: String)
    ensures
        r@ == output_for(path@, ext@, is_dir, windows),
{
    let p = chars_of(path);
    let e = chars_of(ext);
    let base = if is_dir {
        file_name_on_exec(&p, windows)
    } else {
        file_stem_on_exec(&p, windows)
    };
    let base = match base {
        Some(b) => b,
        None => Vec::new(),
    };
    let name = concat_chars(&base, &e);
    let parent = parent_or_dot_on_exec(&p, windows);
    string_from_vec(&join_path_on_exec(&parent, &name, windows))
}

/// The table of suffixes spelled out.
proof fn lemma_known_suffixes()
    ensures
        known_suffixes().len() == 16,
        known_suffixes()[0] == ".tar.gz"@,
        known_suffixes()[1] == ".tar.bz2"@,
        known_suffixes()[2] == ".tar.xz"@,
        known_suffixes()[3] == ".tar.zst"@,
        known_suffixes()[4] == ".tgz"@,
        known_suffixes()[5] == ".tbz2"@,
        known_suffixes()[6] == ".txz"@,
        known_suffixes()[7] == ".tzst"@,
        known_suffixes()[8] == ".tar"@,
        known_suffixes()[9] == ".zip"@,
        known_suffixes()[10] == ".7z"@,
        known_suffixes()[11] == ".rar"@,
        known_suffixes()[12] == ".gz"@,
        known_suffixes()[13] == ".bz2"@,
        known_suffixes()[14] == ".xz"@,
        known_suffixes()[15] == ".zst"@,
{
}

/// The first known suffix is the `i`-th when `name` ends with it and with
/// none before it.
proof fn lemma_first_from(name: Seq<char>, from: int, i: int)
    requires
        0 <= from <= i < 16,
        ends_with_lower(name, known_suffixes()[i]),
        forall|j: int| from <= j < i ==> !ends_with_lower(name, #[trigger] known_suffixes()[j]),
    ensures
        first_known_suffix(name, from) == Some(i),
    decreases i - from,
{
    if from < i {
        lemma_first_from(name, from + 1, i);
    }
}

/// No known suffix is found when `name` ends with none of them.
proof fn lemma_none_from(name: Seq<char>, from: int)
    requires
        0 <= from <= 16,
        forall|j: int| from <= j < 16 ==> !ends_with_lower(name, #[trigger] known_suffixes()[j]),
    ensures
        first_known_suffix(name, from) is None,
    decreases 16 - from,
{
    if from < 16 {
        lemma_none_from(name, from + 1);
    }
}

proof fn lemma_folder_case_0(name: Seq<char>)
    requires
        ends_with_lower(name, ".tar.gz"@),
    ensures
        extract_folder_name(name) == name.take(name.len() - 7),
{
    reveal_strlit(".tar.gz");
    reveal_strlit(".tar.bz2");
    reveal_strlit(".tar.xz");
    reveal_strlit(".tar.zst");
    reveal_strlit(".tgz");
    reveal_strlit(".tbz2");
    reveal_strlit(".txz");
    reveal_strlit(".tzst");
    reveal_strlit(".tar");
    reveal_strlit(".zip");
    reveal_strlit(".7z");
    reveal_strlit(".rar");
    reveal_strlit(".gz");
    reveal_strlit(".bz2");
    reveal_strlit(".xz");
    reveal_strlit(".zst");
    lemma_known_suffixes();
    assert forall|j: int| 0 <= j < 0 implies !ends_with_lower(name, #[trigger] known_suffixes()[j]) by {
    }
    lemma_first_from(name, 0, 0);
}

proof fn lemma_folder_case_1(name: Seq<char>)
    requires
        ends_with_lower(name, ".tar.bz2"@),
    ensures
        extract_folder_name(name) == name.take(name.len() - 8),
{
    reveal_strlit(".tar.gz");
    reveal_strlit(".tar.bz2");
    reveal_strlit(".tar.xz");
    reveal_strlit(".tar.zst");
    reveal_strlit(".tgz");
    reveal_strlit(".tbz2");
    reveal_strlit(".txz");
    reveal_strlit(".tzst");
    reveal_strlit(".tar");
    reveal_strlit(".zip");
    reveal_strlit(".7z");
    reveal_strlit(".rar");
    reveal_strlit(".gz");
    reveal_strlit(".bz2");
    reveal_strlit(".xz");
    reveal_strlit(".zst");
    lemma_known_suffixes();
    lemma_not_both(name, ".tar.bz2"@, ".tar.gz"@);
    assert forall|j: int| 0 <= j < 1 implies !ends_with_lower(name, #[trigger] known_suffixes()[j]) by {
    }
    lemma_first_from(name, 0, 1);
}

proof fn lemma_folder_case_2(name: Seq<char>)
    requires
        ends_with_lower(name, ".tar.xz"@),
    ensures
        extract_folder_name(name) == name.take(name.len() - 7),
{
    reveal_strlit(".tar.gz");
    reveal_strlit(".tar.bz2");
    reveal_strlit(".tar.xz");
    reveal_strlit(".tar.zst");
    reveal_strlit(".tgz");
    reveal_strlit(".tbz2");
    reveal_strlit(".txz");
    reveal_strlit(".tzst");
    reveal_strlit(".tar");
    reveal_strlit(".zip");
    reveal_strlit(".7z");
    reveal_strlit(".rar");
    reveal_strlit(".gz");
    reveal_strlit(".bz2");
    reveal_strlit(".xz");
    reveal_strlit(".zst");
    lemma_known_suffixes();
    lemma_not_both(name, ".tar.xz"@, ".tar.gz"@);
    lemma_not_both(name, ".tar.xz"@, ".tar.bz2"@);
    assert forall|j: int| 0 <= j < 2 implies !ends_with_lower(name, #[trigger] known_suffixes()[j]) by {
    }
    lemma_first_from(name, 0, 2);
}

proof fn lemma_folder_case_3(name: Seq<char>)
    requires
        ends_with_lower(name, ".tar.zst"@),
    ensures
        extract_folder_name(name) == name.take(name.len() - 8),
{
    reveal_strlit(".tar.gz");
    reveal_strlit(".tar.bz2");
    reveal_strlit(".tar.xz");
    reveal_strlit(".tar.zst");
    reveal_strlit(".tgz");
    reveal_strlit(".tbz2");
    reveal_strlit(".txz");
    reveal_strlit(".tzst");
    reveal_strlit(".tar");
    reveal_strlit(".zip");
    reveal_strlit(".7z");
    reveal_strlit(".rar");
    reveal_strlit(".gz");
    reveal_strlit(".bz2");
    reveal_strlit(".xz");
    reveal_strlit(".zst");
    lemma_known_suffixes();
    lemma_not_both(name, ".tar.zst"@, ".tar.gz"@);
    lemma_not_both(name, ".tar.zst"@, ".tar.bz2"@);
    lemma_not_both(name, ".tar.zst"@, ".tar.xz"@);
    assert forall|j: int| 0 <= j < 3 implies !ends_with_lower(name, #[trigger] known_suffixes()[j]) by {
    }
    lemma_first_from(name, 0, 3);
}

proof fn lemma_folder_case_4(name: Seq<char>)
    requires
        ends_with_lower(name, ".tgz"@),
    ensures
        extract_folder_name(name) == name.take(name.len() - 4),
{
    reveal_strlit(".tar.gz");
    reveal_strlit(".tar.bz2");
    reveal_strlit(".tar.xz");
    reveal_strlit(".tar.zst");
    reveal_strlit(".tgz");
    reveal_strlit(".tbz2");
    reveal_strlit(".txz");
    reveal_strlit(".tzst");
    reveal_strlit(".tar");
    reveal_strlit(".zip");
    reveal_strlit(".7z");
    reveal_strlit(".rar");
    reveal_strlit(".gz");
    reveal_strlit(".bz2");
    reveal_strlit(".xz");
    reveal_strlit(".zst");
    lemma_known_suffixes();
    lemma_not_both(name, ".tgz"@, ".tar.gz"@);
    lemma_not_both(name, ".tgz"@, ".tar.bz2"@);
    lemma_not_both(name, ".tgz"@, ".tar.xz"@);
    lemma_not_both(name, ".tgz"@, ".tar.zst"@);
    assert forall|j: int| 0 <= j < 4 implies !ends_with_lower(name, #[trigger] known_suffixes()[j]) by {
    }
    lemma_first_from(name, 0, 4);
}

proof fn lemma_folder_case_5(name: Seq<char>)
    requires
        ends_with_lower(name, ".tbz2"@),
    ensures
        extract_folder_name(name) == name.take(name.len() - 5),
{
    reveal_strlit(".tar.gz");
    reveal_strlit(".tar.bz2");
    reveal_strlit(".tar.xz");
    reveal_strlit(".tar.zst");
    reveal_strlit(".tgz");
    reveal_strlit(".tbz2");
    reveal_strlit(".txz");
    reveal_strlit(".tzst");
    reveal_strlit(".tar");
    reveal_strlit(".zip");
    reveal_strlit(".7z");
    reveal_strlit(".rar");
    reveal_strlit(".gz");
    reveal_strlit(".bz2");
    reveal_strlit(".xz");
    reveal_strlit(".zst");
    lemma_known_suffixes();
    lemma_not_both(name, ".tbz2"@, ".tar.gz"@);
    lemma_not_both(name, ".tbz2"@, ".tar.bz2"@);
    lemma_not_both(name, ".tbz2"@, ".tar.xz"@);
    lemma_not_both(name, ".tbz2"@, ".tar.zst"@);
    lemma_not_both(name, ".tbz2"@, ".tgz"@);
    assert forall|j: int| 0 <= j < 5 implies !ends_with_lower(name, #[trigger] known_suffixes()[j]) by {
    }
    lemma_first_from(name, 0, 5);
}

proof fn lemma_folder_case_6(name: Seq<char>)
    requires
        ends_with_lower(name, ".txz"@),
    ensures
        extract_folder_name(name) == name.take(name.len() - 4),
{
    reveal_strlit(".tar.gz");
    reveal_strlit(".tar.bz2");
    reveal_strlit(".tar.xz");
    reveal_strlit(".tar.zst");
    reveal_strlit(".tgz");
    reveal_strlit(".tbz2");
    reveal_strlit(".txz");
    reveal_strlit(".tzst");
    reveal_strlit(".tar");
    reveal_strlit(".zip");
    reveal_strlit(".7z");
    reveal_strlit(".rar");
    reveal_strlit(".gz");
    reveal_strlit(".bz2");
    reveal_strlit(".xz");
    reveal_strlit(".zst");
    lemma_known_suffixes();
    lemma_not_both(name, ".txz"@, ".tar.gz"@);
    lemma_not_both(name, ".txz"@, ".tar.bz2"@);
    lemma_not_both(name, ".txz"@, ".tar.xz"@);
    lemma_not_both(name, ".txz"@, ".tar.zst"@);
    lemma_not_both(name, ".txz"@, ".tgz"@);
    lemma_not_both(name, ".txz"@, ".tbz2"@);
    assert forall|j: int| 0 <= j < 6 implies !ends_with_lower(name, #[trigger] known_suffixes()[j]) by {
    }
    lemma_first_from(name, 0, 6);
}

proof fn lemma_folder_case_7(name: Seq<char>)
    requires
        ends_with_lower(name, ".tzst"@),
    ensures
        extract_folder_name(name) == name.take(name.len() - 5),
{
    reveal_strlit(".tar.gz");
    reveal_strlit(".tar.bz2");
    reveal_strlit(".tar.xz");
    reveal_strlit(".tar.zst");
    reveal_strlit(".tgz");
    reveal_strlit(".tbz2");
    reveal_strlit(".txz");
    reveal_strlit(".tzst");
    reveal_strlit(".tar");
    reveal_strlit(".zip");
    reveal_strlit(".7z");
    reveal_strlit(".rar");
    reveal_strlit(".gz");
    reveal_strlit(".bz2");
    reveal_strlit(".xz");
    reveal_strlit(".zst");
    lemma_known_suffixes();
    lemma_not_both(name, ".tzst"@, ".tar.gz"@);
    lemma_not_both(name, ".tzst"@, ".tar.bz2"@);
    lemma_not_both(name, ".tzst"@, ".tar.xz"@);
    lemma_not_both(name, ".tzst"@, ".tar.zst"@);
    lemma_not_both(name, ".tzst"@, ".tgz"@);
    lemma_not_both(name, ".tzst"@, ".tbz2"@);
    lemma_not_both(name, ".tzst"@, ".txz"@);
    assert forall|j: int| 0 <= j < 7 implies !ends_with_lower(name, #[trigger] known_suffixes()[j]) by {
    }
    lemma_first_from(name, 0, 7);
}

proof fn lemma_folder_case_8(name: Seq<char>)
    requires
        ends_with_lower(name, ".tar"@),
    ensures
        extract_folder_name(name) == name.take(name.len() - 4),
{
    reveal_strlit(".tar.gz");
    reveal_strlit(".tar.bz2");
    reveal_strlit(".tar.xz");
    reveal_strlit(".tar.zst");
    reveal_strlit(".tgz");
    reveal_strlit(".tbz2");
    reveal_strlit(".txz");
    reveal_strlit(".tzst");
    reveal_strlit(".tar");
    reveal_strlit(".zip");
    reveal_strlit(".7z");
    reveal_strlit(".rar");
    reveal_strlit(".gz");
    reveal_strlit(".bz2");
    reveal_strlit(".xz");
    reveal_strlit(".zst");
    lemma_known_suffixes();
    lemma_not_both(name, ".tar"@, ".tar.gz"@);
    lemma_not_both(name, ".tar"@, ".tar.bz2"@);
    lemma_not_both(name, ".tar"@, ".tar.xz"@);
    lemma_not_both(name, ".tar"@, ".tar.zst"@);
    lemma_not_both(name, ".tar"@, ".tgz"@);
    lemma_not_both(name, ".tar"@, ".tbz2"@);
    lemma_not_both(name, ".tar"@, ".txz"@);
    lemma_not_both(name, ".tar"@, ".tzst"@);
    assert forall|j: int| 0 <= j < 8 implies !ends_with_lower(name, #[trigger] known_suffixes()[j]) by {
    }
    lemma_first_from(name, 0, 8);
}

proof fn lemma_folder_case_9(name: Seq<char>)
    requires
        ends_with_lower(name, ".zip"@),
    ensures
        extract_folder_name(name) == name.take(name.len() - 4),
{
    reveal_strlit(".tar.gz");
    reveal_strlit(".tar.bz2");
    reveal_strlit(".tar.xz");
    reveal_strlit(".tar.zst");
    reveal_strlit(".tgz");
    reveal_strlit(".tbz2");
    reveal_strlit(".txz");
    reveal_strlit(".tzst");
    reveal_strlit(".tar");
    reveal_strlit(".zip");
    reveal_strlit(".7z");
    reveal_strlit(".rar");
    reveal_strlit(".gz");
    reveal_strlit(".bz2");
    reveal_strlit(".xz");
    reveal_strlit(".zst");
    lemma_known_suffixes();
    lemma_not_both(name, ".zip"@, ".tar.gz"@);
    lemma_not_both(name, ".zip"@, ".tar.bz2"@);
    lemma_not_both(name, ".zip"@, ".tar.xz"@);
    lemma_not_both(name, ".zip"@, ".tar.zst"@);
    lemma_not_both(name, ".zip"@, ".tgz"@);
    lemma_not_both(name, ".zip"@, ".tbz2"@);
    lemma_not_both(name, ".zip"@, ".txz"@);
    lemma_not_both(name, ".zip"@, ".tzst"@);
    lemma_not_both(name, ".zip"@, ".tar"@);
    assert forall|j: int| 0 <= j < 9 implies !ends_with_lower(name, #[trigger] known_suffixes()[j]) by {
    }
    lemma_first_from(name, 0, 9);
}

proof fn lemma_folder_case_10(name: Seq<char>)
    requires
        ends_with_lower(name, ".7z"@),
    ensures
        extract_folder_name(name) == name.take(name.len() - 3),
{
    reveal_strlit(".tar.gz");
    reveal_strlit(".tar.bz2");
    reveal_strlit(".tar.xz");
    reveal_strlit(".tar.zst");
    reveal_strlit(".tgz");
    reveal_strlit(".tbz2");
    reveal_strlit(".txz");
    reveal_strlit(".tzst");
    reveal_strlit(".tar");
    reveal_strlit(".zip");
    reveal_strlit(".7z");
    reveal_strlit(".rar");
    reveal_strlit(".gz");
    reveal_strlit(".bz2");
    reveal_strlit(".xz");
    reveal_strlit(".zst");
    lemma_known_suffixes();
    lemma_not_both(name, ".7z"@, ".tar.gz"@);
    lemma_not_both(name, ".7z"@, ".tar.bz2"@);
    lemma_not_both(name, ".7z"@, ".tar.xz"@);
    lemma_not_both(name, ".7z"@, ".tar.zst"@);
    lemma_not_both(name, ".7z"@, ".tgz"@);
    lemma_not_both(name, ".7z"@, ".tbz2"@);
    lemma_not_both(name, ".7z"@, ".txz"@);
    lemma_not_both(name, ".7z"@, ".tzst"@);
    lemma_not_both(name, ".7z"@, ".tar"@);
    lemma_not_both(name, ".7z"@, ".zip"@);
    assert forall|j: int| 0 <= j < 10 implies !ends_with_lower(name, #[trigger] known_suffixes()[j]) by {
    }
    lemma_first_from(name, 0, 10);
}

proof fn lemma_folder_case_11(name: Seq<char>)
    requires
        ends_with_lower(name, ".rar"@),
    ensures
        extract_folder_name(name) == name.take(name.len() - 4),
{
    reveal_strlit(".tar.gz");
    reveal_strlit(".tar.bz2");
    reveal_strlit(".tar.xz");
    reveal_strlit(".tar.zst");
    reveal_strlit(".tgz");
    reveal_strlit(".tbz2");
    reveal_strlit(".txz");
    reveal_strlit(".tzst");
    reveal_strlit(".tar");
    reveal_strlit(".zip");
    reveal_strlit(".7z");
    reveal_strlit(".rar");
    reveal_strlit(".gz");
    reveal_strlit(".bz2");
    reveal_strlit(".xz");
    reveal_strlit(".zst");
    lemma_known_suffixes();
    lemma_not_both(name, ".rar"@, ".tar.gz"@);
    lemma_not_both(name, ".rar"@, ".tar.bz2"@);
    lemma_not_both(name, ".rar"@, ".tar.xz"@);
    lemma_not_both(name, ".rar"@, ".tar.zst"@);
    lemma_not_both(name, ".rar"@, ".tgz"@);
    lemma_not_both(name, ".rar"@, ".tbz2"@);
    lemma_not_both(name, ".rar"@, ".txz"@);
    lemma_not_both(name, ".rar"@, ".tzst"@);
    lemma_not_both(name, ".rar"@, ".tar"@);
    lemma_not_both(name, ".rar"@, ".zip"@);
    lemma_not_both(name, ".rar"@, ".7z"@);
    assert forall|j: int| 0 <= j < 11 implies !ends_with_lower(name, #[trigger] known_suffixes()[j]) by {
    }
    lemma_first_from(name, 0, 11);
}

proof fn lemma_folder_case_12(name: Seq<char>)
    requires
        ends_with_lower(name, ".gz"@),
        !ends_with_lower(name, ".tar.gz"@),
    ensures
        extract_folder_name(name) == name.take(name.len() - 3),
{
    reveal_strlit(".tar.gz");
    reveal_strlit(".tar.bz2");
    reveal_strlit(".tar.xz");
    reveal_strlit(".tar.zst");
    reveal_strlit(".tgz");
    reveal_strlit(".tbz2");
    reveal_strlit(".txz");
    reveal_strlit(".tzst");
    reveal_strlit(".tar");
    reveal_strlit(".zip");
    reveal_strlit(".7z");
    reveal_strlit(".rar");
    reveal_strlit(".gz");
    reveal_strlit(".bz2");
    reveal_strlit(".xz");
    reveal_strlit(".zst");
    lemma_known_suffixes();
    lemma_not_both(name, ".gz"@, ".tar.bz2"@);
    lemma_not_both(name, ".gz"@, ".tar.xz"@);
    lemma_not_both(name, ".gz"@, ".tar.zst"@);
    lemma_not_both(name, ".gz"@, ".tgz"@);
    lemma_not_both(name, ".gz"@, ".tbz2"@);
    lemma_not_both(name, ".gz"@, ".txz"@);
    lemma_not_both(name, ".gz"@, ".tzst"@);
    lemma_not_both(name, ".gz"@, ".tar"@);
    lemma_not_both(name, ".gz"@, ".zip"@);
    lemma_not_both(name, ".gz"@, ".7z"@);
    lemma_not_both(name, ".gz"@, ".rar"@);
    assert forall|j: int| 0 <= j < 12 implies !ends_with_lower(name, #[trigger] known_suffixes()[j]) by {
    }
    lemma_first_from(name, 0, 12);
}

proof fn lemma_folder_case_13(name: Seq<char>)
    requires
        ends_with_lower(name, ".bz2"@),
        !ends_with_lower(name, ".tar.bz2"@),
    ensures
        extract_folder_name(name) == name.take(name.len() - 4),
{
    reveal_strlit(".tar.gz");
    reveal_strlit(".tar.bz2");
    reveal_strlit(".tar.xz");
    reveal_strlit(".tar.zst");
    reveal_strlit(".tgz");
    reveal_strlit(".tbz2");
    reveal_strlit(".txz");
    reveal_strlit(".tzst");
    reveal_strlit(".tar");
    reveal_strlit(".zip");
    reveal_strlit(".7z");
    reveal_strlit(".rar");
    reveal_strlit(".gz");
    reveal_strlit(".bz2");
    reveal_strlit(".xz");
    reveal_strlit(".zst");
    lemma_known_suffixes();
    lemma_not_both(name, ".bz2"@, ".tar.gz"@);
    lemma_not_both(name, ".bz2"@, ".tar.xz"@);
    lemma_not_both(name, ".bz2"@, ".tar.zst"@);
    lemma_not_both(name, ".bz2"@, ".tgz"@);
    lemma_not_both(name, ".bz2"@, ".tbz2"@);
    lemma_not_both(name, ".bz2"@, ".txz"@);
    lemma_not_both(name, ".bz2"@, ".tzst"@);
    lemma_not_both(name, ".bz2"@, ".tar"@);
    lemma_not_both(name, ".bz2"@, ".zip"@);
    lemma_not_both(name, ".bz2"@, ".7z"@);
    lemma_not_both(name, ".bz2"@, ".rar"@);
    lemma_not_both(name, ".bz2"@, ".gz"@);
    assert forall|j: int| 0 <= j < 13 implies !ends_with_lower(name, #[trigger] known_suffixes()[j]) by {
    }
    lemma_first_from(name, 0, 13);
}

proof fn lemma_folder_case_14(name: Seq<char>)
    requires
        ends_with_lower(name, ".xz"@),
        !ends_with_lower(name, ".tar.xz"@),
    ensures
        extract_folder_name(name) == name.take(name.len() - 3),
{
    reveal_strlit(".tar.gz");
    reveal_strlit(".tar.bz2");
    reveal_strlit(".tar.xz");
    reveal_strlit(".tar.zst");
    reveal_strlit(".tgz");
    reveal_strlit(".tbz2");
    reveal_strlit(".txz");
    reveal_strlit(".tzst");
    reveal_strlit(".tar");
    reveal_strlit(".zip");
    reveal_strlit(".7z");
    reveal_strlit(".rar");
    reveal_strlit(".gz");
    reveal_strlit(".bz2");
    reveal_strlit(".xz");
    reveal_strlit(".zst");
    lemma_known_suffixes();
    lemma_not_both(name, ".xz"@, ".tar.gz"@);
    lemma_not_both(name, ".xz"@, ".tar.bz2"@);
    lemma_not_both(name, ".xz"@, ".tar.zst"@);
    lemma_not_both(name, ".xz"@, ".tgz"@);
    lemma_not_both(name, ".xz"@, ".tbz2"@);
    lemma_not_both(name, ".xz"@, ".txz"@);
    lemma_not_both(name, ".xz"@, ".tzst"@);
    lemma_not_both(name, ".xz"@, ".tar"@);
    lemma_not_both(name, ".xz"@, ".zip"@);
    lemma_not_both(name, ".xz"@, ".7z"@);
    lemma_not_both(name, ".xz"@, ".rar"@);
    lemma_not_both(name, ".xz"@, ".gz"@);
    lemma_not_both(name, ".xz"@, ".bz2"@);
    assert forall|j: int| 0 <= j < 14 implies !ends_with_lower(name, #[trigger] known_suffixes()[j]) by {
    }
    lemma_first_from(name, 0, 14);
}

proof fn lemma_folder_case_15(name: Seq<char>)
    requires
        ends_with_lower(name, ".zst"@),
        !ends_with_lower(name, ".tar.zst"@),
    ensures
        extract_folder_name(name) == name.take(name.len() - 4),
{
    reveal_strlit(".tar.gz");
    reveal_strlit(".tar.bz2");
    reveal_strlit(".tar.xz");
    reveal_strlit(".tar.zst");
    reveal_strlit(".tgz");
    reveal_strlit(".tbz2");
    reveal_strlit(".txz");
    reveal_strlit(".tzst");
    reveal_strlit(".tar");
    reveal_strlit(".zip");
    reveal_strlit(".7z");
    reveal_strlit(".rar");
    reveal_strlit(".gz");
    reveal_strlit(".bz2");
    reveal_strlit(".xz");
    reveal_strlit(".zst");
    lemma_known_suffixes();
    lemma_not_both(name, ".zst"@, ".tar.gz"@);
    lemma_not_both(name, ".zst"@, ".tar.bz2"@);
    lemma_not_both(name, ".zst"@, ".tar.xz"@);
    lemma_not_both(name, ".zst"@, ".tgz"@);
    lemma_not_both(name, ".zst"@, ".tbz2"@);
    lemma_not_both(name, ".zst"@, ".txz"@);
    lemma_not_both(name, ".zst"@, ".tzst"@);
    lemma_not_both(name, ".zst"@, ".tar"@);
    lemma_not_both(name, ".zst"@, ".zip"@);
    lemma_not_both(name, ".zst"@, ".7z"@);
    lemma_not_both(name, ".zst"@, ".rar"@);
    lemma_not_both(name, ".zst"@, ".gz"@);
    lemma_not_both(name, ".zst"@, ".bz2"@);
    lemma_not_both(name, ".zst"@, ".xz"@);
    assert forall|j: int| 0 <= j < 15 implies !ends_with_lower(name, #[trigger] known_suffixes()[j]) by {
    }
    lemma_first_from(name, 0, 15);
}

/// The folder that "Extract to" makes for an archive file named `name`:
/// the name without its archive suffix, matched without case, where a
/// compressed tarball loses its whole double suffix (`.tar.gz`, `.tar.bz2`,
/// `.tar.xz`, `.tar.zst`) or its short alias (`.tgz`, `.tbz2`, `.txz`,
/// `.tzst`), any other archive its own suffix (`.tar`, `.zip`, `.7z`,
/// `.rar`, `.gz`, `.bz2`, `.xz`, `.zst`); a name with none of these gets
/// `_extracted` appended.
pub proof fn lemma_extract_folder_names(name: Seq<char>)
    ensures
        ends_with_lower(name, ".tar.gz"@) ==> extract_folder_name(name) == name.take(name.len() - 7),
        ends_with_lower(name, ".tar.bz2"@) ==> extract_folder_name(name) == name.take(name.len() - 8),
        ends_with_lower(name, ".tar.xz"@) ==> extract_folder_name(name) == name.take(name.len() - 7),
        ends_with_lower(name, ".tar.zst"@) ==> extract_folder_name(name) == name.take(name.len() - 8),
        ends_with_lower(name, ".tgz"@) ==> extract_folder_name(name) == name.take(name.len() - 4),
        ends_with_lower(name, ".tbz2"@) ==> extract_folder_name(name) == name.take(name.len() - 5),
        ends_with_lower(name, ".txz"@) ==> extract_folder_name(name) == name.take(name.len() - 4),
        ends_with_lower(name, ".tzst"@) ==> extract_folder_name(name) == name.take(name.len() - 5),
        ends_with_lower(name, ".tar"@) ==> extract_folder_name(name) == name.take(name.len() - 4),
        ends_with_lower(name, ".zip"@) ==> extract_folder_name(name) == name.take(name.len() - 4),
        ends_with_lower(name, ".7z"@) ==> extract_folder_name(name) == name.take(name.len() - 3),
        ends_with_lower(name, ".rar"@) ==> extract_folder_name(name) == name.take(name.len() - 4),
        ends_with_lower(name, ".gz"@) && !ends_with_lower(name, ".tar.gz"@) ==> extract_folder_name(name) == name.take(name.len() - 3),
        ends_with_lower(name, ".bz2"@) && !ends_with_lower(name, ".tar.bz2"@) ==> extract_folder_name(name) == name.take(name.len() - 4),
        ends_with_lower(name, ".xz"@) && !ends_with_lower(name, ".tar.xz"@) ==> extract_folder_name(name) == name.take(name.len() - 3),
        ends_with_lower(name, ".zst"@) && !ends_with_lower(name, ".tar.zst"@) ==> extract_folder_name(name) == name.take(name.len() - 4),
        (!ends_with_lower(name, ".tar.gz"@) && !ends_with_lower(name, ".tar.bz2"@) && !ends_with_lower(name, ".tar.xz"@) && !ends_with_lower(name, ".tar.zst"@) && !ends_with_lower(name, ".tgz"@) && !ends_with_lower(name, ".tbz2"@) && !ends_with_lower(name, ".txz"@) && !ends_with_lower(name, ".tzst"@) && !ends_with_lower(name, ".tar"@) && !ends_with_lower(name, ".zip"@) && !ends_with_lower(name, ".7z"@) && !ends_with_lower(name, ".rar"@) && !ends_with_lower(name, ".gz"@) && !ends_with_lower(name, ".bz2"@) && !ends_with_lower(name, ".xz"@) && !ends_with_lower(name, ".zst"@)) ==> extract_folder_name(name) == name + "_extracted"@,
{
    if ends_with_lower(name, ".tar.gz"@) {
        lemma_folder_case_0(name);
    }
    if ends_with_lower(name, ".tar.bz2"@) {
        lemma_folder_case_1(name);
    }
    if ends_with_lower(name, ".tar.xz"@) {
        lemma_folder_case_2(name);
    }
    if ends_with_lower(name, ".tar.zst"@) {
        lemma_folder_case_3(name);
    }
    if ends_with_lower(name, ".tgz"@) {
        lemma_folder_case_4(name);
    }
    if ends_with_lower(name, ".tbz2"@) {
        lemma_folder_case_5(name);
    }
    if ends_with_lower(name, ".txz"@) {
        lemma_folder_case_6(name);
    }
    if ends_with_lower(name, ".tzst"@) {
        lemma_folder_case_7(name);
    }
    if ends_with_lower(name, ".tar"@) {
        lemma_folder_case_8(name);
    }
    if ends_with_lower(name, ".zip"@) {
        lemma_folder_case_9(name);
    }
    if ends_with_lower(name, ".7z"@) {
        lemma_folder_case_10(name);
    }
    if ends_with_lower(name, ".rar"@) {
        lemma_folder_case_11(name);
    }
    if ends_with_lower(name, ".gz"@) && !ends_with_lower(name, ".tar.gz"@) {
        lemma_folder_case_12(name);
    }
    if ends_with_lower(name, ".bz2"@) && !ends_with_lower(name, ".tar.bz2"@) {
        lemma_folder_case_13(name);
    }
    if ends_with_lower(name, ".xz"@) && !ends_with_lower(name, ".tar.xz"@) {
        lemma_folder_case_14(name);
    }
    if ends_with_lower(name, ".zst"@) && !ends_with_lower(name, ".tar.zst"@) {
        lemma_folder_case_15(name);
    }
    if !ends_with_lower(name, ".tar.gz"@) && !ends_with_lower(name, ".tar.bz2"@) && !ends_with_lower(name, ".tar.xz"@) && !ends_with_lower(name, ".tar.zst"@) && !ends_with_lower(name, ".tgz"@) && !ends_with_lower(name, ".tbz2"@) && !ends_with_lower(name, ".txz"@) && !ends_with_lower(name, ".tzst"@) && !ends_with_lower(name, ".tar"@) && !ends_with_lower(name, ".zip"@) && !ends_with_lower(name, ".7z"@) && !ends_with_lower(name, ".rar"@) && !ends_with_lower(name, ".gz"@) && !ends_with_lower(name, ".bz2"@) && !ends_with_lower(name, ".xz"@) && !ends_with_lower(name, ".zst"@) {
        reveal_strlit(".tar.gz");
    reveal_strlit(".tar.bz2");
    reveal_strlit(".tar.xz");
    reveal_strlit(".tar.zst");
    reveal_strlit(".tgz");
    reveal_strlit(".tbz2");
    reveal_strlit(".txz");
    reveal_strlit(".tzst");
    reveal_strlit(".tar");
    reveal_strlit(".zip");
    reveal_strlit(".7z");
    reveal_strlit(".rar");
    reveal_strlit(".gz");
    reveal_strlit(".bz2");
    reveal_strlit(".xz");
    reveal_strlit(".zst");
        lemma_known_suffixes();
        assert forall|j: int| 0 <= j < 16 implies !ends_with_lower(name, #[trigger] known_suffixes()[j]) by {
        }
        lemma_none_from(name, 0);
    }
}

} // verus!
