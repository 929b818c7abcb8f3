//! ZIP backend.
//!
//! Writing goes through `zip::ZipWriter` into memory; reading goes through a
//! `zip::ZipArchive` opened on the archive's bytes. What the zip crate writes
//! and reads is named; the facts stated about those names are that reading
//! back what the writer wrote gives the entries that were added, in order,
//! when their names are plain relative paths.
use vstd::prelude::*;
use std::io::{Cursor, Read, Write};
use crate::archive::names::{sanitize_path, sanitized};
use crate::archive::tar_backend::{
    adding_reports, guard, unix_clean, lemma_entry_inside, parent_dirs, prepend, with_prefix,
};
use crate::archive::{
    effects, entries_view, is_selected, lemma_steps_inside_concat, outcome_view, push_action,
    push_progress, push_report, reports_view, selected, selection, step_inside, steps_inside,
    Action, BuildOutcome, CheckOutcome, Effect, EntryInfo, Plan, Progress, SourceEntry,
};
use crate::archive::format::{starts_with, zip_empty_magic, zip_local_magic};
use crate::cli::{method_code, zip_method_named, Compression};
use crate::error::{failed_in, ArchiveError, ErrorView};
use crate::paths::{
    comps_of, components, dotdot, has_root, join_path, join_path_on,
    join_path_on_exec, lemma_comps_of_names, piece_comp, pieces, stays_inside_exec,
    stays_inside_on,
};
use crate::archive::names::lemma_sanitized_stays_inside;
use crate::text::{bytes_copy, chars_of, string_from_vec};
use vstd::utf8::encode_utf8;

verus! {

/// `std::io::Cursor`, which the zip writer and reader work over.
#[verifier::external_type_specification]
#[verifier::external_body]
#[verifier::reject_recursive_types(T)]
pub struct ExCursor<T>(std::io::Cursor<T>);

/// `zip::ZipArchive`, a zip opened for reading.
#[verifier::external_type_specification]
#[verifier::external_body]
#[verifier::reject_recursive_types(R)]
pub struct ExZipArchive<R>(zip::ZipArchive<R>);

/// `zip::result::ZipError`.
#[verifier::external_type_specification]
#[verifier::external_body]
pub struct ExZipError(zip::result::ZipError);

/// One entry added to a zip: its name as given, whether it is a directory,
/// its contents, the Unix permissions asked for, and its compression.
pub type ZipItem = (Seq<char>, bool, Seq<u8>, Option<u32>, Compression);

/// An entry as `ZipArchive::by_index` shows it: name, size, compressed size,
/// Unix mode.
pub type ZipMeta = (Seq<char>, u64, u64, Option<u32>, u16);

/// The same, as the reading wrapper hands it out, with `is_dir` before the
/// mode.
pub type ZipEntry = (String, u64, u64, bool, Option<u32>, u16);

/// The outcome of one step of writing a zip.
pub type ZipStep = Result<(), zip::result::ZipError>;

/// A zip archive being written into memory.
#[verifier::external_body]
pub struct ZipSink {
    writer: zip::ZipWriter<Cursor<Vec<u8>>>,
}

/// The entries added so far to `sink`, in order.
pub uninterp spec fn zip_log(sink: ZipSink) -> Seq<ZipItem>;

/// The bytes `ZipWriter::finish` hands back after the entries of `log` were
/// added.
pub uninterp spec fn zip_built(log: Seq<ZipItem>) -> Seq<u8>;

/// The bytes a `ZipArchive` was opened on.
pub uninterp spec fn zip_source(a: zip::ZipArchive<Cursor<Vec<u8>>>) -> Seq<u8>;

/// What `ZipArchive::new` makes of `image`: its number of entries, or the
/// text of the error.
pub uninterp spec fn zip_opened(image: Seq<u8>) -> Result<nat, Seq<char>>;

/// Entry `i` of the zip `image`, or the text of the error.
pub uninterp spec fn zip_entry_at(image: Seq<u8>, i: int) -> Result<ZipMeta, Seq<char>>;

/// The contents of entry `i` of the zip `image`, or the text of the error.
pub uninterp spec fn zip_data_at(image: Seq<u8>, i: int) -> Result<Seq<u8>, Seq<char>>;

/// Whether a zip entry name denotes a directory: it ends with `/` or `\`.
pub open spec fn zip_dir_name(name: Seq<char>) -> bool {
    name.len() > 0 && (name.last() == '/' || name.last() == '\\')
}

/// What `ZipFile::enclosed_name` gives under the platform's path rules, as
/// text: the name, unless it holds a NUL, has a drive prefix or a root, or
/// climbs above where it starts.
pub open spec fn zip_enclosed(name: Seq<char>, windows: bool) -> Option<Seq<char>> {
    if name.contains('\0') || !stays_inside_on(name, windows) {
        None
    } else {
        Some(name)
    }
}

/// Whether `name` is enclosed (see `zip_enclosed`).
fn enclosed_exec(name: &Vec<char>, windows: bool) -> (r: bool)
    ensures
        r == zip_enclosed(name@, windows) is Some,
{
    let mut i: usize = 0;
    while i < name.len()
        invariant
            i <= name@.len(),
            forall|k: int| 0 <= k < i ==> name@[k] != '\0',
        decreases name@.len() - i,
    {
        if name[i] == '\0' {
            assert(name@.contains('\0'));
            return false;
        }
        i = i + 1;
    }
    assert(!name@.contains('\0'));
    stays_inside_exec(name, windows)
}

/// The name an added entry is stored under: a directory gets a trailing `/`.
pub open spec fn stored_name(it: ZipItem) -> Seq<char> {
    if it.1 {
        it.0.push('/')
    } else {
        it.0
    }
}

/// The Unix mode an added entry is stored with.
pub open spec fn stored_mode(it: ZipItem) -> u32 {
    if it.1 {
        0o40755u32
    } else {
        match it.3 {
            Some(m) => 0o100000u32 | (m & 0o777u32),
            None => 0o100644u32,
        }
    }
}

/// An entry whose name is clean on Unix and does not end with a backslash.
pub open spec fn zip_clean(it: ZipItem) -> bool {
    unix_clean(it.0) && it.0.last() != '\\'
}

/// What reading `image` gives when it was built from `log`: as many entries
/// as were added; and when every entry is clean, each with its stored name,
/// its size, its compressed size (the size itself when nothing compressed
/// it, more than nothing when a compressor did), its directory flag, its
/// stored mode, the number of its compression method (0, stored, for a
/// directory) and its contents.
pub open spec fn zip_reads_back(image: Seq<u8>, log: Seq<ZipItem>) -> bool {
    &&& zip_opened(image) == Ok::<nat, Seq<char>>(log.len())
    &&& (forall|k: int| 0 <= k < log.len() ==> zip_clean(#[trigger] log[k])) ==> {
        forall|i: int|
            0 <= i < log.len() ==> {
                &&& #[trigger] zip_entry_at(image, i) matches Ok(m)
                &&& m.0 == stored_name(log[i])
                &&& m.1 == log[i].2.len()
                &&& (log[i].1 || log[i].4 == Compression::Store) ==> m.2 == log[i].2.len()
                &&& (!log[i].1 && log[i].4 != Compression::Store) ==> m.2 > 0
                &&& zip_dir_name(m.0) == log[i].1
                &&& m.3 == Some(stored_mode(log[i]))
                &&& m.4 == if log[i].1 {
                    0u16
                } else {
                    method_code(log[i].4)
                }
                &&& zip_data_at(image, i) == Ok::<Seq<u8>, Seq<char>>(log[i].2)
            }
    }
}

/// Starts an empty zip in memory (`zip::ZipWriter::new` over a
/// `Cursor<Vec<u8>>`).
#[verifier::external_body]
fn zip_sink_new() -> (r: ZipSink)
    ensures
        zip_log(r) == Seq::<ZipItem>::empty(),
{
    ZipSink { writer: zip::ZipWriter::new(Cursor::new(Vec::new())) }
}

/// The name under which the zip writer files an added entry: a directory's
/// name gets a `/` unless it already ends with `/` or `\`.
pub open spec fn zip_key(it: ZipItem) -> Seq<char> {
    if it.1 && !zip_dir_name(it.0) {
        it.0.push('/')
    } else {
        it.0
    }
}

/// Whether `log` already holds an entry filed under `key`.
pub open spec fn zip_has_key(log: Seq<ZipItem>, key: Seq<char>) -> bool {
    exists|k: int| 0 <= k < log.len() && zip_key(#[trigger] log[k]) == key
}

/// Whether the zip writer can take the entry `it`: the UTF-8 form of the
/// name it files it under fits the 65535 bytes a header's name length holds
/// (the writer panics on a longer one).
pub open spec fn zip_fits(it: ZipItem) -> bool {
    encode_utf8(zip_key(it)).len() <= 65535
}

/// `ZipWriter::add_directory` with `compression_method(zip_method)` and
/// `large_file(true)`, where `zip_method` is the zip crate's method for the
/// number of the choice `method`. On success the entry is recorded under
/// that choice. Writing into the `Cursor<Vec<u8>>`, and finishing the
/// previous entry's compressor there, fail only when memory runs out, so the
/// call fails only on a name that is already in the archive.
#[verifier::external_body]
#[allow(unused_variables)]
fn zip_add_dir(
    sink: &mut ZipSink,
    name: &str,
    zip_method: zip::CompressionMethod,
    method: Compression,
) -> (r: ZipStep)
    requires
        zip_method == zip_method_named(method_code(method)),
        zip_fits((name@, true, Seq::<u8>::empty(), None, method)),
    ensures
        r is Ok ==> zip_log(*final(sink)) == zip_log(*old(sink)).push(
            (name@, true, Seq::<u8>::empty(), None, method),
        ),
        !zip_has_key(
            zip_log(*old(sink)),
            zip_key((name@, true, Seq::<u8>::empty(), None, method)),
        ) ==> r is Ok,
{
    let options = zip::write::SimpleFileOptions::default()
        .compression_method(zip_method)
        .large_file(true);
    sink.writer.add_directory(name, options)
}

/// Why adding a file to a zip failed: starting its entry, or writing its
/// contents.
pub enum ZipAddError {
    Start(zip::result::ZipError),
    Write(std::io::Error),
}

/// `ZipWriter::start_file` with `compression_method(zip_method)` (the zip
/// crate's method for the number of `method`) and `large_file(true)`, then
/// `Write::write_all` of the whole contents in one call. On success the file
/// entry is recorded with those contents under the choice `method`. As for a
/// directory, the call fails only on a name already in the archive.
#[verifier::external_body]
#[allow(unused_variables)]
fn zip_add_file(
    sink: &mut ZipSink,
    name: &str,
    data: &[u8],
    zip_method: zip::CompressionMethod,
    method: Compression,
) -> (r: Result<(), ZipAddError>)
    requires
        zip_method == zip_method_named(method_code(method)),
        zip_fits((name@, false, data@, None, method)),
    ensures
        r is Ok ==> zip_log(*final(sink)) == zip_log(*old(sink)).push(
            (name@, false, data@, None, method),
        ),
        !zip_has_key(zip_log(*old(sink)), name@) ==> r is Ok,
{
    let options = zip::write::SimpleFileOptions::default()
        .compression_method(zip_method)
        .large_file(true);
    sink.writer.start_file(name, options).map_err(ZipAddError::Start)?;
    sink.writer.write_all(data).map_err(ZipAddError::Write)
}

/// The same with `unix_permissions(mode)` as well.
#[verifier::external_body]
#[allow(unused_variables)]
fn zip_add_file_with_mode(
    sink: &mut ZipSink,
    name: &str,
    data: &[u8],
    mode: u32,
    zip_method: zip::CompressionMethod,
    method: Compression,
) -> (r: Result<(), ZipAddError>)
    requires
        zip_method == zip_method_named(method_code(method)),
        zip_fits((name@, false, data@, Some(mode), method)),
    ensures
        r is Ok ==> zip_log(*final(sink)) == zip_log(*old(sink)).push(
            (name@, false, data@, Some(mode), method),
        ),
        !zip_has_key(zip_log(*old(sink)), name@) ==> r is Ok,
{
    let options = zip::write::SimpleFileOptions::default()
        .compression_method(zip_method)
        .large_file(true)
        .unix_permissions(mode);
    sink.writer.start_file(name, options).map_err(ZipAddError::Start)?;
    sink.writer.write_all(data).map_err(ZipAddError::Write)
}

/// How a zip built from `log` begins: with a local file header when it has
/// entries, with the end-of-central-directory record when it has none.
pub open spec fn zip_signed(image: Seq<u8>, log: Seq<ZipItem>) -> bool {
    if log.len() > 0 {
        starts_with(image, zip_local_magic())
    } else {
        starts_with(image, zip_empty_magic())
    }
}

/// Finishes the archive with `ZipWriter::finish` and hands back its bytes.
/// The contract claims that these are a function of the entries added (each
/// file's contents written in one call; without the crate's `time` feature
/// every entry carries the same fixed timestamp), that reading them back
/// gives those entries (see `zip_reads_back`), and how they begin (see
/// `zip_signed`). Finishing the last compressor and writing the central
/// directory into the `Cursor` fail only when memory runs out, so finishing
/// succeeds.
#[verifier::external_body]
fn zip_finish(sink: ZipSink) -> (r: Result<Vec<u8>, zip::result::ZipError>)
    ensures
        r is Ok,
        r matches Ok(v) ==> v@ == zip_built(zip_log(sink)),
        r matches Ok(v) ==> zip_reads_back(v@, zip_log(sink)),
        r matches Ok(v) ==> zip_signed(v@, zip_log(sink)),
{
    Ok(sink.writer.finish()?.into_inner())
}

/// The text of a zip error (its `Display` output).
#[verifier::external_body]
fn zip_error_text(e: &zip::result::ZipError) -> String {
    e.to_string()
}

/// Opens the zip `image` with `ZipArchive::new`.
#[verifier::external_body]
fn zip_open(image: Vec<u8>) -> (r: Result<zip::ZipArchive<Cursor<Vec<u8>>>, String>)
    ensures
        r is Ok <==> zip_opened(image@) is Ok,
        r matches Ok(a) ==> zip_source(a) == image@,
        r matches Err(m) ==> zip_opened(image@) == failure::<nat>(m@),
{
    match zip::ZipArchive::new(Cursor::new(image)) {
        Ok(a) => Ok(a),
        Err(e) => Err(e.to_string()),
    }
}

/// `ZipArchive::len`.
#[verifier::external_body]
fn zip_len(a: &zip::ZipArchive<Cursor<Vec<u8>>>) -> (r: usize)
    ensures
        zip_opened(zip_source(*a)) == success::<nat>(r as nat),
{
    a.len()
}

/// Entry `i` (`ZipArchive::by_index`): `name`, `size`, `compressed_size`,
/// `is_dir`, `unix_mode` and the number of its compression method
/// (`compression().to_u16()`). The contract also states what `is_dir`
/// computes from the name.
#[verifier::external_body]
#[allow(deprecated)]
fn zip_entry(a: &mut zip::ZipArchive<Cursor<Vec<u8>>>, i: usize) -> (r: Result<ZipEntry, String>)
    ensures
        zip_source(*final(a)) == zip_source(*old(a)),
        r is Ok <==> zip_entry_at(zip_source(*old(a)), i as int) is Ok,
        r matches Ok(e) ==> zip_entry_at(zip_source(*old(a)), i as int) == success(meta_view(e)),
        r matches Err(m) ==> zip_entry_at(zip_source(*old(a)), i as int) == failure::<ZipMeta>(m@),
        r matches Ok(e) ==> e.3 == zip_dir_name(e.0@),
{
    let f = match a.by_index(i) {
        Ok(f) => f,
        Err(e) => return Err(e.to_string()),
    };
    Ok((f.name().to_string(), f.size(), f.compressed_size(), f.is_dir(), f.unix_mode(), f.compression().to_u16()))
}

/// The contents of entry `i`, read to the end (which checks its CRC), or the
/// error's text.
#[verifier::external_body]
fn zip_read(a: &mut zip::ZipArchive<Cursor<Vec<u8>>>, i: usize) -> (r: Result<Vec<u8>, String>)
    ensures
        zip_source(*final(a)) == zip_source(*old(a)),
        r is Ok <==> zip_data_at(zip_source(*old(a)), i as int) is Ok,
        r matches Ok(v) ==> zip_data_at(zip_source(*old(a)), i as int) == success(v@),
        r matches Err(m) ==> zip_data_at(zip_source(*old(a)), i as int) == failure::<Seq<u8>>(m@),
{
    let mut f = match a.by_index(i) {
        Ok(f) => f,
        Err(e) => return Err(e.to_string()),
    };
    let mut out = Vec::new();
    match f.read_to_end(&mut out) {
        Ok(_) => Ok(out),
        Err(e) => Err(e.to_string()),
    }
}

/// A success carrying `v`.
pub open spec fn success<T>(v: T) -> Result<T, Seq<char>> {
    Ok(v)
}

/// A failure with the text `m`.
pub open spec fn failure<T>(m: Seq<char>) -> Result<T, Seq<char>> {
    Err(m)
}

/// An entry as read, as sequences.
pub open spec fn meta_view(e: ZipEntry) -> ZipMeta {
    (e.0@, e.1, e.2, e.4, e.5)
}

/// The zip entry a staged entry becomes: a directory has no contents and no
/// permissions of its own.
pub open spec fn zip_item_of(s: SourceEntry, c: Compression) -> ZipItem {
    (
        s.name@,
        s.is_dir,
        if s.is_dir {
            Seq::<u8>::empty()
        } else {
            s.data@
        },
        if s.is_dir {
            None
        } else {
            s.mode
        },
        c,
    )
}

/// The zip entries for the staged entries, in order.
pub open spec fn zip_log_of(s: Seq<SourceEntry>, c: Compression) -> Seq<ZipItem> {
    s.map_values(|e: SourceEntry| zip_item_of(e, c))
}

/// Why building failed while adding staged entry `k`: its directory entry,
/// its file entry, or its contents.
pub open spec fn adding_failed(e: ErrorView, s: SourceEntry) -> bool {
    if s.is_dir {
        failed_in(e, "adding directory "@ + s.name@)
    } else {
        failed_in(e, "adding file "@ + s.name@) || failed_in(e, "compressing "@ + s.name@)
    }
}

/// Whether no two entries of `log` are filed under the same name.
pub open spec fn zip_keys_distinct(log: Seq<ZipItem>) -> bool {
    forall|i: int, j: int| 0 <= i < j < log.len() ==> zip_key(log[i]) != zip_key(log[j])
}

/// What building a zip from `sources` gives. With no two entries filed under
/// one name, the zip is always built.
pub open spec fn created(
    sources: Seq<SourceEntry>,
    compression: Compression,
    r: BuildOutcome,
) -> bool {
    &&& zip_keys_distinct(zip_log_of(sources, compression)) ==> r.result is Ok
    &&& match r.result {
        Ok(v) => {
            &&& v@ == zip_built(zip_log_of(sources, compression))
            &&& zip_reads_back(v@, zip_log_of(sources, compression))
            &&& zip_signed(v@, zip_log_of(sources, compression))
            &&& reports_view(r.reports@) =~= adding_reports(
                sources,
                sources.len() as int,
            ).push((sources.len() as u64, sources.len() as u64, "done"@))
        },
        Err(e) => {
            ||| {
                &&& failed_in(e@, "finalizing archive"@)
                &&& reports_view(r.reports@) =~= adding_reports(sources, sources.len() as int)
            }
            ||| exists|k: int|
                0 <= k < sources.len() && reports_view(r.reports@) =~= #[trigger] adding_reports(
                    sources,
                    k + 1,
                ) && adding_failed(e@, sources[k])
        },
    }
}

/// Builds a zip holding the staged entries, in order, each compressed with
/// `compression` (directories are stored). Reports each entry's name before
/// adding it, then `done`.
pub fn create(sources: &[SourceEntry], compression: Compression) -> (r: BuildOutcome)
    requires
        forall|k: int|
            0 <= k < sources@.len() ==> zip_fits(#[trigger] zip_item_of(sources@[k], compression)),
    ensures
        created(sources@, compression, r),
{
    let n = sources.len();
    let total = n as u64;
    let mut reports: Vec<Progress> = Vec::new();
    let mut sink = zip_sink_new();
    let zip_method = compression.to_zip_method();
    let mut i: usize = 0;
    while i < n
        invariant
            n == sources@.len(),
            zip_method == zip_method_named(method_code(compression)),
            total == n,
            i <= n,
            zip_log(sink) == zip_log_of(sources@.take(i as int), compression),
            reports_view(reports@) == adding_reports(sources@, i as int),
            forall|k: int|
                0 <= k < sources@.len() ==> zip_fits(#[trigger] zip_item_of(sources@[k], compression)),
        decreases n - i,
    {
        let s = &sources[i];
        assert(zip_fits(zip_item_of(sources@[i as int], compression)));
        push_progress(&mut reports, i as u64, total, s.name.clone());
        assert(reports_view(reports@) =~= adding_reports(sources@, i + 1));
        let ghost before = zip_log(sink);
        proof {
            let full = zip_log_of(sources@, compression);
            let lg = zip_log(sink);
            assert(full[i as int] == zip_item_of(sources@[i as int], compression));
            if zip_keys_distinct(full) {
                if zip_has_key(lg, zip_key(full[i as int])) {
                    let k = choose|k: int|
                        0 <= k < lg.len() && zip_key(#[trigger] lg[k]) == zip_key(full[i as int]);
                    assert(lg[k] == full[k]);
                }
            }
        }
        if s.is_dir {
            match zip_add_dir(&mut sink, s.name.as_str(), zip_method, compression) {
                Ok(()) => {},
                Err(e) => {
                    let context = with_prefix("adding directory ", s.name.as_str());
                    let detail = zip_error_text(&e);
                    return BuildOutcome {
                        reports,
                        result: Err(ArchiveError::Failed { context, detail }),
                    };
                },
            }
        } else {
            let added = match s.mode {
                Some(m) => zip_add_file_with_mode(
                    &mut sink,
                    s.name.as_str(),
                    s.data.as_slice(),
                    m,
                    zip_method,
                    compression,
                ),
                None => zip_add_file(
                    &mut sink,
                    s.name.as_str(),
                    s.data.as_slice(),
                    zip_method,
                    compression,
                ),
            };
            match added {
                Ok(()) => {},
                Err(ZipAddError::Start(e)) => {
                    let context = with_prefix("adding file ", s.name.as_str());
                    let detail = zip_error_text(&e);
                    return BuildOutcome {
                        reports,
                        result: Err(ArchiveError::Failed { context, detail }),
                    };
                },
                Err(ZipAddError::Write(e)) => {
                    let context = with_prefix("compressing ", s.name.as_str());
                    let detail = crate::codec::io_error_text(&e);
                    return BuildOutcome {
                        reports,
                        result: Err(ArchiveError::Failed { context, detail }),
                    };
                },
            }
        }
        assert(zip_log(sink) =~= before.push(zip_item_of(sources@[i as int], compression)));
        assert(zip_log_of(sources@.take(i + 1), compression) =~= zip_log_of(
            sources@.take(i as int),
            compression,
        ).push(zip_item_of(sources@[i as int], compression)));
        i = i + 1;
    }
    assert(sources@.take(n as int) =~= sources@);
    match zip_finish(sink) {
        Ok(v) => {
            push_progress(&mut reports, total, total, "done".to_string());
            BuildOutcome { reports, result: Ok(v) }
        },
        Err(e) => {
            let detail = zip_error_text(&e);
            BuildOutcome {
                reports,
                result: Err(
                    ArchiveError::Failed { context: "finalizing archive".to_string(), detail },
                ),
            }
        },
    }
}

/// The listing of the zip `image` from entry `i` to entry `n`: name, size,
/// compressed size and directory flag of each; or the first error.
pub open spec fn zip_list_from(image: Seq<u8>, i: int, n: int) -> Result<
    Seq<(Seq<char>, u64, u64, bool)>,
    ErrorView,
>
    decreases n - i,
{
    if i >= n {
        Ok(seq![])
    } else {
        match zip_entry_at(image, i) {
            Err(m) => Err(ErrorView::Io(m)),
            Ok(m) => prepend(seq![(m.0, m.1, m.2, zip_dir_name(m.0))], zip_list_from(image, i + 1, n)),
        }
    }
}

/// Opens `bytes` as a zip, or fails with `reading archive <name>`.
fn open_archive(archive: &str, bytes: &[u8]) -> (r: Result<
    zip::ZipArchive<Cursor<Vec<u8>>>,
    ArchiveError,
>)
    ensures
        match zip_opened(bytes@) {
            Ok(_) => r matches Ok(a) && zip_source(a) == bytes@,
            Err(m) => r matches Err(e) && e@ == ErrorView::Failed("reading archive "@ + archive@, m),
        },
{
    match zip_open(bytes_copy(bytes)) {
        Ok(a) => Ok(a),
        Err(m) => Err(ArchiveError::Failed { context: with_prefix("reading archive ", archive), detail: m }),
    }
}

/// What listing the zip `bytes` named `archive` gives.
pub open spec fn listed(
    archive: Seq<char>,
    bytes: Seq<u8>,
    r: Result<Vec<EntryInfo>, ArchiveError>,
) -> bool {
    match zip_opened(bytes) {
        Err(m) => r matches Err(e) && e@ == ErrorView::Failed("reading archive "@ + archive, m),
        Ok(n) => match zip_list_from(bytes, 0, n as int) {
            Ok(es) => r matches Ok(v) && entries_view(v@) =~= es,
            Err(ev) => r matches Err(e) && e@ == ev,
        },
    }
}

/// Lists the entries of a zip archive named `archive`.
pub fn list(archive: &str, bytes: &[u8]) -> (r: Result<Vec<EntryInfo>, ArchiveError>)
    ensures
        listed(archive@, bytes@, r),
{
    let mut a = open_archive(archive, bytes)?;
    let n = zip_len(&a);
    let ghost img = bytes@;
    let mut out: Vec<EntryInfo> = Vec::new();
    let mut i: usize = 0;
    while i < n
        invariant
            img == bytes@,
            zip_source(a) == img,
            zip_opened(img) == success::<nat>(n as nat),
            i <= n,
            zip_list_from(img, 0, n as int) == prepend(
                entries_view(out@),
                zip_list_from(img, i as int, n as int),
            ),
        decreases n - i,
    {
        let e = match zip_entry(&mut a, i) {
            Ok(e) => e,
            Err(m) => {
                return Err(ArchiveError::Io { detail: m });
            },
        };
        let (name, size, compressed, is_dir, _mode, _method) = e;
        let ghost before = entries_view(out@);
        let info = EntryInfo { name, size, compressed, is_dir };
        let ghost iv = info@;
        out.push(info);
        assert(entries_view(out@) =~= before.push(iv));
        assert(before.push(iv) + match zip_list_from(img, i + 1, n as int) {
            Ok(rest) => rest,
            Err(_) => seq![],
        } =~= before + (seq![iv] + match zip_list_from(img, i + 1, n as int) {
            Ok(rest) => rest,
            Err(_) => seq![],
        }));
        i = i + 1;
    }
    assert(entries_view(out@) + seq![] =~= entries_view(out@));
    Ok(out)
}

/// The steps for entry `i` of the zip `image` (of `n` entries), and, when the
/// extraction ends with it, how.
pub open spec fn zip_step(
    image: Seq<u8>,
    i: int,
    n: int,
    dest: Seq<char>,
    sel: Option<Seq<Seq<char>>>,
    force: bool,
    windows: bool,
) -> (Seq<Effect>, Option<Result<(), ErrorView>>) {
    match zip_entry_at(image, i) {
        Err(m) => (seq![], Some(Err(ErrorView::Io(m)))),
        Ok(m) => if !selected(sel, m.0) {
            (seq![], None)
        } else {
            match zip_enclosed(m.0, windows) {
                None => (seq![], Some(Err(ErrorView::UnsafePath(m.0)))),
                Some(enc) => {
                    let safe = sanitized(enc, windows);
                    let out = join_path_on(dest, safe, windows);
                    let rep = seq![Effect::Report(i as u64, n as u64, safe)];
                    if zip_dir_name(m.0) {
                        (rep + seq![Effect::MakeDir(out)], None)
                    } else {
                        let pre = rep + parent_dirs(dest, safe, windows) + guard(out, force);
                        match zip_data_at(image, i) {
                            Err(e) => (
                                pre + seq![Effect::Write(out, Seq::<u8>::empty(), None, false)],
                                Some(Err(ErrorView::Io(e))),
                            ),
                            Ok(d) => (pre + seq![Effect::Write(out, d, m.3, true)], None),
                        }
                    }
                },
            }
        },
    }
}

/// The steps of extracting the zip `image` (of `n` entries) from entry `i`
/// on, and how the extraction ends.
pub open spec fn zip_extract_from(
    image: Seq<u8>,
    i: int,
    n: int,
    dest: Seq<char>,
    sel: Option<Seq<Seq<char>>>,
    force: bool,
    windows: bool,
) -> (Seq<Effect>, Result<(), ErrorView>)
    decreases n - i,
{
    if i >= n {
        (seq![Effect::Report(n as u64, n as u64, "done"@)], Ok(()))
    } else {
        let st = zip_step(image, i, n, dest, sel, force, windows);
        match st.1 {
            Some(o) => (st.0, o),
            None => {
                let rest = zip_extract_from(image, i + 1, n, dest, sel, force, windows);
                (st.0 + rest.0, rest.1)
            },
        }
    }
}

fn plan_zip_entry(
    a: &mut zip::ZipArchive<Cursor<Vec<u8>>>,
    i: usize,
    n: usize,
    d: &Vec<char>,
    sel: Option<&Vec<String>>,
    force: bool,
    windows: bool,
    acts: &mut Vec<Action>,
) -> (r: Option<Result<(), ArchiveError>>)
    ensures
        zip_source(*final(a)) == zip_source(*old(a)),
        ({
            let st = zip_step(zip_source(*old(a)), i as int, n as int, d@, selection(sel), force, windows);
            &&& effects(final(acts)@) == effects(old(acts)@) + st.0
            &&& r is None <==> st.1 is None
            &&& r matches Some(o) ==> st.1 == Some(outcome_view(o))
        }),
{
    let ghost old_acts = effects(acts@);
    let e = match zip_entry(a, i) {
        Ok(e) => e,
        Err(m) => {
            assert(effects(acts@) =~= old_acts + seq![]);
            return Some(Err(ArchiveError::Io { detail: m }));
        },
    };
    let (name, _size, _compressed, is_dir, mode, _method) = e;
    let namec = chars_of(name.as_str());
    if !is_selected(sel, &namec) {
        assert(effects(acts@) =~= old_acts + seq![]);
        return None;
    }
    if !enclosed_exec(&namec, windows) {
        assert(effects(acts@) =~= old_acts + seq![]);
        return Some(Err(ArchiveError::UnsafePath { name }));
    }
    let safe = sanitize_path(name.as_str(), windows);
    let safec = chars_of(safe.as_str());
    let outc = join_path_on_exec(d, &safec, windows);
    let out = string_from_vec(&outc);
    push_report(acts, i as u64, n as u64, safe);
    if is_dir {
        push_action(acts, Action::MakeDir(out));
    } else {
        crate::archive::tar_backend::push_parent(acts, d, &safec, windows);
        crate::archive::tar_backend::push_guard(acts, &out, force);
        match zip_read(a, i) {
            Ok(data) => {
                push_action(acts, Action::Write { path: out, data, mode, strict: true });
            },
            Err(m) => {
                push_action(acts, Action::Write { path: out, data: Vec::new(), mode: None, strict: false });
                return Some(Err(ArchiveError::Io { detail: m }));
            },
        }
    }
    None
}

/// What planning the extraction of the zip `bytes` named `archive` gives.
pub open spec fn planned(
    archive: Seq<char>,
    bytes: Seq<u8>,
    dest: Seq<char>,
    sel: Option<Seq<Seq<char>>>,
    force: bool,
    windows: bool,
    r: Plan,
) -> bool {
    match zip_opened(bytes) {
        Err(m) => r.actions@.len() == 0 && (r.outcome matches Err(e) && e@
            == ErrorView::Failed("reading archive "@ + archive, m)),
        Ok(n) => {
            let x = zip_extract_from(bytes, 0, n as int, dest, sel, force, windows);
            &&& effects(r.actions@) =~= seq![Effect::MakeDir(dest)] + x.0
            &&& outcome_view(r.outcome) == x.1
        },
    }
}

/// Plans the extraction of a zip archive named `archive` into `dest`: every
/// entry, or, with `sel`, those whose name is one of the names. An entry
/// whose name is not enclosed stops the extraction.
#[verifier::rlimit(40)]
pub fn extract(
    archive: &str,
    bytes: &[u8],
    dest: &str,
    sel: Option<&Vec<String>>,
    force: bool,
    windows: bool,
) -> (r: Plan)
    ensures
        planned(archive@, bytes@, dest@, selection(sel), force, windows, r),
{
    let mut acts: Vec<Action> = Vec::new();
    let mut a = match open_archive(archive, bytes) {
        Ok(a) => a,
        Err(e) => {
            return Plan { actions: acts, outcome: Err(e) };
        },
    };
    push_action(&mut acts, Action::MakeDir(dest.to_string()));
    let n = zip_len(&a);
    let ghost img = bytes@;
    let ghost sv = selection(sel);
    let ghost full = zip_extract_from(img, 0, n as int, dest@, sv, force, windows);
    let d = chars_of(dest);
    let mut i: usize = 0;
    while i < n
        invariant
            img == bytes@,
            zip_source(a) == img,
            zip_opened(img) == success::<nat>(n as nat),
            d@ == dest@,
            sv == selection(sel),
            full == zip_extract_from(img, 0, n as int, dest@, sv, force, windows),
            i <= n,
            seq![Effect::MakeDir(dest@)] + full.0 == effects(acts@) + zip_extract_from(
                img,
                i as int,
                n as int,
                dest@,
                sv,
                force,
                windows,
            ).0,
            full.1 == zip_extract_from(img, i as int, n as int, dest@, sv, force, windows).1,
        decreases n - i,
    {
        let ghost before = effects(acts@);
        let ghost st = zip_step(img, i as int, n as int, dest@, sv, force, windows);
        let ghost rest = zip_extract_from(img, i + 1, n as int, dest@, sv, force, windows);
        match plan_zip_entry(&mut a, i, n, &d, sel, force, windows, &mut acts) {
            Some(o) => {
                assert(effects(acts@) =~= before + st.0);
                return Plan { actions: acts, outcome: o };
            },
            None => {
                assert(before + (st.0 + rest.0) =~= effects(acts@) + rest.0);
            },
        }
        i = i + 1;
    }
    push_report(&mut acts, n as u64, n as u64, "done".to_string());
    Plan { actions: acts, outcome: Ok(()) }
}

/// The reports of checking the zip `image` (of `n` entries) from entry `i`
/// on, and how it ends: each entry's name is reported before its contents
/// are read through.
pub open spec fn zip_check_from(image: Seq<u8>, i: int, n: int) -> (
    Seq<(u64, u64, Seq<char>)>,
    Result<(), ErrorView>,
)
    decreases n - i,
{
    if i >= n {
        (seq![(n as u64, n as u64, "ok"@)], Ok(()))
    } else {
        match zip_entry_at(image, i) {
            Err(m) => (seq![], Err(ErrorView::Io(m))),
            Ok(m) => {
                let rep = seq![(i as u64, n as u64, m.0)];
                match zip_data_at(image, i) {
                    Err(e) => (rep, Err(ErrorView::Failed("verifying "@ + m.0, e))),
                    Ok(_) => {
                        let rest = zip_check_from(image, i + 1, n);
                        (rep + rest.0, rest.1)
                    },
                }
            },
        }
    }
}

/// What checking the zip `bytes` named `archive` gives.
pub open spec fn checked(archive: Seq<char>, bytes: Seq<u8>, r: CheckOutcome) -> bool {
    match zip_opened(bytes) {
        Err(m) => r.reports@.len() == 0 && (r.result matches Err(e) && e@
            == ErrorView::Failed("reading archive "@ + archive, m)),
        Ok(n) => {
            &&& reports_view(r.reports@) =~= zip_check_from(bytes, 0, n as int).0
            &&& outcome_view(r.result) == zip_check_from(bytes, 0, n as int).1
        },
    }
}

/// Checks a zip archive named `archive` by reading every entry through.
pub fn test(archive: &str, bytes: &[u8]) -> (r: CheckOutcome)
    ensures
        checked(archive@, bytes@, r),
{
    let mut reports: Vec<Progress> = Vec::new();
    let mut a = match open_archive(archive, bytes) {
        Ok(a) => a,
        Err(e) => {
            return CheckOutcome { reports, result: Err(e) };
        },
    };
    let n = zip_len(&a);
    let ghost img = bytes@;
    let ghost full = zip_check_from(img, 0, n as int);
    let mut i: usize = 0;
    while i < n
        invariant
            img == bytes@,
            zip_source(a) == img,
            zip_opened(img) == success::<nat>(n as nat),
            full == zip_check_from(img, 0, n as int),
            i <= n,
            full.0 == reports_view(reports@) + zip_check_from(img, i as int, n as int).0,
            full.1 == zip_check_from(img, i as int, n as int).1,
        decreases n - i,
    {
        let ghost before = reports_view(reports@);
        let ghost cur = zip_check_from(img, i as int, n as int);
        let e = match zip_entry(&mut a, i) {
            Ok(e) => e,
            Err(m) => {
                assert(before + cur.0 =~= before);
                return CheckOutcome { reports, result: Err(ArchiveError::Io { detail: m }) };
            },
        };
        let (name, _size, _compressed, _is_dir, _mode, _method) = e;
        let context = with_prefix("verifying ", name.as_str());
        push_progress(&mut reports, i as u64, n as u64, name);
        match zip_read(&mut a, i) {
            Ok(_) => {},
            Err(m) => {
                return CheckOutcome {
                    reports,
                    result: Err(ArchiveError::Failed { context, detail: m }),
                };
            },
        }
        let ghost rest = zip_check_from(img, i + 1, n as int);
        assert(before + (seq![cur.0[0]] + rest.0) =~= reports_view(reports@) + rest.0);
        i = i + 1;
    }
    push_progress(&mut reports, n as u64, n as u64, "ok".to_string());
    CheckOutcome { reports, result: Ok(()) }
}

/// A clean name, and the same name with a trailing `/`, are enclosed.
pub proof fn lemma_clean_enclosed(name: Seq<char>, dir: bool)
    requires
        unix_clean(name),
    ensures
        zip_enclosed(
            if dir {
                name.push('/')
            } else {
                name
            },
            false,
        ) == Some(
            if dir {
                name.push('/')
            } else {
                name
            },
        ),
{
    let ps = pieces(name);
    lemma_comps_of_names(ps);
    assert(!components(name).contains(dotdot())) by {
        if components(name).contains(dotdot()) {
            let k = choose|k: int| 0 <= k < ps.len() && ps[k] == dotdot();
            assert(ps[k] != dotdot());
        }
    }
    crate::paths::lemma_depth_without_dotdot(components(name), 0);
    if dir {
        let n2 = name.push('/');
        assert(n2.drop_last() =~= name);
        assert(pieces(n2) == ps.push(Seq::<char>::empty()));
        crate::paths::lemma_pieces_nonempty(name);
        assert(ps.push(Seq::<char>::empty()).drop_last() =~= ps);
        assert(comps_of(ps.push(Seq::<char>::empty())) =~= comps_of(ps) + piece_comp(
            Seq::<char>::empty(),
            false,
        ));
        assert(components(n2) =~= components(name));
        assert(has_root(n2) == has_root(name));
        assert(!n2.contains('\0')) by {
            if n2.contains('\0') {
                let k = choose|k: int| 0 <= k < n2.len() && n2[k] == '\0';
                assert(k < name.len());
                assert(name[k] == '\0');
            }
        }
    }
}

/// What extracting the staged entries `s` (of which the zip holds `n`) from
/// the `k`-th on restores under `dest`: each entry reported by its stored
/// name, a directory created, a file written with its contents and stored
/// mode; then `done`.
pub open spec fn zip_restored_from(
    s: Seq<SourceEntry>,
    c: Compression,
    k: int,
    dest: Seq<char>,
    force: bool,
) -> Seq<Effect>
    decreases s.len() - k,
{
    if k < 0 || k >= s.len() {
        seq![Effect::Report(s.len() as u64, s.len() as u64, "done"@)]
    } else {
        let it = zip_item_of(s[k], c);
        let name = stored_name(it);
        let out = join_path(dest, name);
        let rep = seq![Effect::Report(k as u64, s.len() as u64, name)];
        let here = if it.1 {
            rep + seq![Effect::MakeDir(out)]
        } else {
            rep + parent_dirs(dest, name, false) + guard(out, force) + seq![
                Effect::Write(out, it.2, Some(stored_mode(it)), true),
            ]
        };
        here + zip_restored_from(s, c, k + 1, dest, force)
    }
}

proof fn lemma_zip_restore_from(
    s: Seq<SourceEntry>,
    c: Compression,
    image: Seq<u8>,
    k: int,
    dest: Seq<char>,
    force: bool,
)
    requires
        0 <= k <= s.len(),
        forall|j: int| 0 <= j < s.len() ==> zip_clean(#[trigger] zip_item_of(s[j], c)),
        zip_reads_back(image, zip_log_of(s, c)),
    ensures
        zip_extract_from(image, k, s.len() as int, dest, None, force, false) == (
            zip_restored_from(s, c, k, dest, force),
            Ok::<(), ErrorView>(()),
        ),
    decreases s.len() - k,
{
    let log = zip_log_of(s, c);
    assert forall|j: int| 0 <= j < log.len() implies zip_clean(#[trigger] log[j]) by {
        assert(log[j] == zip_item_of(s[j], c));
    }
    if k < s.len() {
        lemma_zip_restore_from(s, c, image, k + 1, dest, force);
        let it = zip_item_of(s[k], c);
        assert(log[k] == it);
        lemma_clean_enclosed(it.0, it.1);
        assert(zip_entry_at(image, k) matches Ok(m));
    }
}

/// Extracting a zip that `create` built from staged entries with clean names
/// (none ending with a backslash) restores every entry, in order, under
/// `dest`: each reported by its stored name, a directory created, a file
/// written with its contents and its stored mode; and the extraction
/// succeeds.
pub proof fn lemma_round_trip(
    sources: Seq<SourceEntry>,
    compression: Compression,
    bytes: Seq<u8>,
    dest: Seq<char>,
    force: bool,
)
    requires
        forall|j: int| 0 <= j < sources.len() ==> zip_clean(#[trigger] zip_item_of(sources[j], compression)),
        zip_reads_back(bytes, zip_log_of(sources, compression)),
    ensures
        zip_opened(bytes) == success::<nat>(sources.len()),
        zip_extract_from(bytes, 0, sources.len() as int, dest, None, force, false) == (
            zip_restored_from(sources, compression, 0, dest, force),
            Ok::<(), ErrorView>(()),
        ),
{
    let log = zip_log_of(sources, compression);
    assert forall|j: int| 0 <= j < log.len() implies zip_clean(#[trigger] log[j]) by {
        assert(log[j] == zip_item_of(sources[j], compression));
    }
    lemma_zip_restore_from(sources, compression, bytes, 0, dest, force);
}

proof fn lemma_zip_check_from(s: Seq<SourceEntry>, c: Compression, image: Seq<u8>, k: int)
    requires
        0 <= k <= s.len(),
        forall|j: int| 0 <= j < s.len() ==> zip_clean(#[trigger] zip_item_of(s[j], c)),
        zip_reads_back(image, zip_log_of(s, c)),
    ensures
        zip_check_from(image, k, s.len() as int).1 == Ok::<(), ErrorView>(()),
    decreases s.len() - k,
{
    let log = zip_log_of(s, c);
    assert forall|j: int| 0 <= j < log.len() implies zip_clean(#[trigger] log[j]) by {
        assert(log[j] == zip_item_of(s[j], c));
    }
    if k < s.len() {
        lemma_zip_check_from(s, c, image, k + 1);
        assert(log[k] == zip_item_of(s[k], c));
        assert(zip_entry_at(image, k) matches Ok(m));
    }
}

/// Checking a zip that `create` built from staged entries with clean names
/// (none ending with a backslash) passes.
pub proof fn lemma_check_passes(sources: Seq<SourceEntry>, compression: Compression, bytes: Seq<u8>)
    requires
        forall|j: int| 0 <= j < sources.len() ==> zip_clean(#[trigger] zip_item_of(sources[j], compression)),
        zip_reads_back(bytes, zip_log_of(sources, compression)),
    ensures
        zip_opened(bytes) == success::<nat>(sources.len()),
        zip_check_from(bytes, 0, sources.len() as int).1 == Ok::<(), ErrorView>(()),
{
    let log = zip_log_of(sources, compression);
    assert forall|j: int| 0 <= j < log.len() implies zip_clean(#[trigger] log[j]) by {
        assert(log[j] == zip_item_of(sources[j], compression));
    }
    lemma_zip_check_from(sources, compression, bytes, 0);
}

proof fn lemma_zip_step_inside(
    image: Seq<u8>,
    i: int,
    n: int,
    dest: Seq<char>,
    sel: Option<Seq<Seq<char>>>,
    force: bool,
    windows: bool,
)
    ensures
        steps_inside(zip_step(image, i, n, dest, sel, force, windows).0, dest, windows),
{
    if zip_entry_at(image, i) is Ok {
        let m = zip_entry_at(image, i)->Ok_0;
        if selected(sel, m.0) && zip_enclosed(m.0, windows) is Some {
            let enc = zip_enclosed(m.0, windows)->Some_0;
            assert(stays_inside_on(enc, windows));
            let safe = sanitized(enc, windows);
            let rep = seq![Effect::Report(i as u64, n as u64, safe)];
            assert(steps_inside(rep, dest, windows));
            let d = match zip_data_at(image, i) {
                Ok(d) => d,
                Err(_) => Seq::<u8>::empty(),
            };
            let md = if zip_data_at(image, i) is Ok {
                m.3
            } else {
                None
            };
            let st = if zip_data_at(image, i) is Ok {
                true
            } else {
                false
            };
            lemma_entry_inside(dest, enc, windows, rep, force, d, md, st);
        }
    }
}

/// No file or directory that extracting a zip plans to make lies outside
/// the destination: each is on the entry's name (or its parent), which has
/// no drive and no root and never climbs above where it starts, on Windows
/// with each name made safe.
pub proof fn lemma_zip_extract_inside(
    image: Seq<u8>,
    i: int,
    n: int,
    dest: Seq<char>,
    sel: Option<Seq<Seq<char>>>,
    force: bool,
    windows: bool,
)
    ensures
        steps_inside(zip_extract_from(image, i, n, dest, sel, force, windows).0, dest, windows),
    decreases n - i,
{
    if i < n {
        let st = zip_step(image, i, n, dest, sel, force, windows);
        lemma_zip_step_inside(image, i, n, dest, sel, force, windows);
        if st.1 is None {
            lemma_zip_extract_inside(image, i + 1, n, dest, sel, force, windows);
            lemma_steps_inside_concat(
                st.0,
                zip_extract_from(image, i + 1, n, dest, sel, force, windows).0,
                dest,
                windows,
            );
        }
    }
}

/// Whether `es` lists the staged entries `s` from the `k`-th on: each by its
/// stored name, with its size and directory flag.
pub open spec fn lists_from(
    es: Seq<(Seq<char>, u64, u64, bool)>,
    s: Seq<SourceEntry>,
    c: Compression,
    k: int,
) -> bool {
    &&& es.len() == s.len() - k
    &&& forall|j: int|
        0 <= j < es.len() ==> {
            let it = zip_item_of(s[k + j], c);
            &&& (#[trigger] es[j]).0 == stored_name(it)
            &&& es[j].1 == it.2.len()
            &&& (it.1 || c == Compression::Store) ==> es[j].2 == it.2.len()
            &&& (!it.1 && c != Compression::Store) ==> es[j].2 > 0
            &&& es[j].3 == it.1
        }
}

proof fn lemma_zip_list_from(s: Seq<SourceEntry>, c: Compression, image: Seq<u8>, k: int)
    requires
        0 <= k <= s.len(),
        forall|j: int| 0 <= j < s.len() ==> zip_clean(#[trigger] zip_item_of(s[j], c)),
        zip_reads_back(image, zip_log_of(s, c)),
    ensures
        zip_list_from(image, k, s.len() as int) matches Ok(es) && lists_from(es, s, c, k),
    decreases s.len() - k,
{
    let log = zip_log_of(s, c);
    assert forall|j: int| 0 <= j < log.len() implies zip_clean(#[trigger] log[j]) by {
        assert(log[j] == zip_item_of(s[j], c));
    }
    if k < s.len() {
        lemma_zip_list_from(s, c, image, k + 1);
        assert(log[k] == zip_item_of(s[k], c));
        assert(zip_entry_at(image, k) matches Ok(m));
        let m = zip_entry_at(image, k)->Ok_0;
        let rest = zip_list_from(image, k + 1, s.len() as int)->Ok_0;
        let es = seq![(m.0, m.1, m.2, zip_dir_name(m.0))] + rest;
        assert(zip_list_from(image, k, s.len() as int) == Ok::<
            Seq<(Seq<char>, u64, u64, bool)>,
            ErrorView,
        >(es));
        assert forall|j: int| 0 <= j < es.len() implies {
            let it = zip_item_of(s[k + j], c);
            &&& (#[trigger] es[j]).0 == stored_name(it)
            &&& es[j].1 == it.2.len()
            &&& es[j].3 == it.1
        } by {
            if j > 0 {
                assert(es[j] == rest[j - 1]);
            }
        }
    } else {
        assert(zip_list_from(image, k, s.len() as int) == Ok::<
            Seq<(Seq<char>, u64, u64, bool)>,
            ErrorView,
        >(seq![]));
    }
}

/// Listing a zip that `create` built from staged entries with clean names
/// (none ending with a backslash) lists them all, in order: each by its
/// stored name (a directory's with a trailing `/`), with its size and its
/// directory flag.
pub proof fn lemma_list_round_trip(
    sources: Seq<SourceEntry>,
    compression: Compression,
    bytes: Seq<u8>,
)
    requires
        forall|j: int|
            0 <= j < sources.len() ==> zip_clean(
                #[trigger] zip_item_of(sources[j], compression),
            ),
        zip_reads_back(bytes, zip_log_of(sources, compression)),
    ensures
        zip_opened(bytes) == success::<nat>(sources.len()),
        zip_list_from(bytes, 0, sources.len() as int) matches Ok(es) && lists_from(
            es,
            sources,
            compression,
            0,
        ),
{
    let log = zip_log_of(sources, compression);
    assert forall|j: int| 0 <= j < log.len() implies zip_clean(#[trigger] log[j]) by {
        assert(log[j] == zip_item_of(sources[j], compression));
    }
    lemma_zip_list_from(sources, compression, bytes, 0);
}

/// Restricting an extraction to names that include every name the listing
/// from entry `i` on gives changes nothing.
pub proof fn lemma_zip_select_listed(
    image: Seq<u8>,
    i: int,
    n: int,
    dest: Seq<char>,
    names: Seq<Seq<char>>,
    force: bool,
    windows: bool,
)
    requires
        zip_list_from(image, i, n) matches Ok(es) && forall|j: int|
            0 <= j < es.len() ==> names.contains(#[trigger] es[j].0),
    ensures
        zip_extract_from(image, i, n, dest, Some(names), force, windows) == zip_extract_from(
            image,
            i,
            n,
            dest,
            None,
            force,
            windows,
        ),
    decreases n - i,
{
    if i < n {
        let m = zip_entry_at(image, i)->Ok_0;
        let es = zip_list_from(image, i, n)->Ok_0;
        let rest = zip_list_from(image, i + 1, n)->Ok_0;
        assert(es[0].0 == m.0);
        assert(names.contains(es[0].0));
        assert forall|j: int| 0 <= j < rest.len() implies names.contains(#[trigger] rest[j].0) by {
            assert(es[j + 1] == rest[j]);
        }
        assert(zip_step(image, i, n, dest, Some(names), force, windows) == zip_step(
            image,
            i,
            n,
            dest,
            None,
            force,
            windows,
        ));
        lemma_zip_select_listed(image, i + 1, n, dest, names, force, windows);
    }
}

proof fn lemma_zip_list_len(image: Seq<u8>, i: int, n: int)
    requires
        i <= n,
        zip_list_from(image, i, n) is Ok,
    ensures
        zip_list_from(image, i, n)->Ok_0.len() == n - i,
    decreases n - i,
{
    if i < n {
        lemma_zip_list_len(image, i + 1, n);
    }
}

/// Listing a zip that `create` built, whatever the names, gives one entry
/// per staged entry when it succeeds.
pub proof fn lemma_zip_list_count(sources: Seq<SourceEntry>, compression: Compression, bytes: Seq<u8>)
    requires
        zip_reads_back(bytes, zip_log_of(sources, compression)),
        zip_list_from(bytes, 0, sources.len() as int) is Ok,
    ensures
        zip_opened(bytes) == success::<nat>(sources.len()),
        zip_list_from(bytes, 0, sources.len() as int)->Ok_0.len() == sources.len(),
{
    lemma_zip_list_len(bytes, 0, sources.len() as int);
}

/// Whether entry `j` of the zip `image`, header and data, reads through.
pub open spec fn zip_entry_reads(image: Seq<u8>, j: int) -> bool {
    zip_entry_at(image, j) is Ok && zip_data_at(image, j) is Ok
}

/// Whether `e` is how reading entry `j` of the zip `image` fails: the
/// header's error, or `verifying <name>` with the data's error.
pub open spec fn zip_entry_failure(image: Seq<u8>, j: int, e: ErrorView) -> bool {
    match zip_entry_at(image, j) {
        Err(m) => e == ErrorView::Io(m),
        Ok(m) => zip_data_at(image, j) matches Err(d) && e == ErrorView::Failed(
            "verifying "@ + m.0,
            d,
        ),
    }
}

/// Checking entries `i..n` fails when some entry `k` among them cannot be
/// read through, with the failure of the first entry from `i` on that
/// cannot, which is `k` or one before it.
pub proof fn lemma_zip_check_from_fails(image: Seq<u8>, i: int, n: int, k: int)
    requires
        0 <= i <= k < n,
        !zip_entry_reads(image, k),
    ensures
        zip_check_from(image, i, n).1 matches Err(e) && exists|j: int|
            i <= j <= k && !zip_entry_reads(image, j) && zip_entry_failure(image, j, e),
    decreases k - i,
{
    if zip_entry_reads(image, i) {
        lemma_zip_check_from_fails(image, i + 1, n, k);
    } else {
        let e = zip_check_from(image, i, n).1->Err_0;
        assert(zip_entry_failure(image, i, e));
    }
}

/// Checking entries `i..n` when each of them reads through succeeds, and
/// reports each entry's name in order, then `ok`.
pub proof fn lemma_zip_check_from_passes(image: Seq<u8>, i: int, n: int)
    requires
        0 <= i <= n,
        forall|j: int| i <= j < n ==> #[trigger] zip_entry_reads(image, j),
    ensures
        zip_check_from(image, i, n).1 == Ok::<(), ErrorView>(()),
        zip_check_from(image, i, n).0 == Seq::new(
            (n - i) as nat,
            |j: int| ((i + j) as u64, n as u64, zip_entry_at(image, i + j)->Ok_0.0),
        ).push((n as u64, n as u64, "ok"@)),
    decreases n - i,
{
    if i < n {
        assert(zip_entry_reads(image, i));
        lemma_zip_check_from_passes(image, i + 1, n);
        let rest = Seq::new(
            (n - i - 1) as nat,
            |j: int| ((i + 1 + j) as u64, n as u64, zip_entry_at(image, i + 1 + j)->Ok_0.0),
        );
        let all = Seq::new(
            (n - i) as nat,
            |j: int| ((i + j) as u64, n as u64, zip_entry_at(image, i + j)->Ok_0.0),
        );
        assert(all =~= seq![(i as u64, n as u64, zip_entry_at(image, i)->Ok_0.0)] + rest);
        assert(all.push((n as u64, n as u64, "ok"@)) =~= seq![
            (i as u64, n as u64, zip_entry_at(image, i)->Ok_0.0),
        ] + rest.push((n as u64, n as u64, "ok"@)));
    } else {
        assert(Seq::new(
            0nat,
            |j: int| ((i + j) as u64, n as u64, zip_entry_at(image, i + j)->Ok_0.0),
        ).push((n as u64, n as u64, "ok"@)) =~= seq![(n as u64, n as u64, "ok"@)]);
    }
}

/// Checking a zip reads every entry through: when entry `k`'s header or data
/// cannot be read, the check fails, with the failure of the first entry that
/// cannot; when every entry can, the check passes, having reported each
/// entry's name in order and then `ok`.
pub proof fn lemma_zip_test_reads_every_entry(
    archive: Seq<char>,
    bytes: Seq<u8>,
    r: CheckOutcome,
    k: int,
)
    requires
        checked(archive, bytes, r),
        zip_opened(bytes) is Ok,
    ensures
        0 <= k < zip_opened(bytes)->Ok_0 && !zip_entry_reads(bytes, k) ==> (r.result matches Err(e)
            && exists|j: int| 0 <= j <= k && !zip_entry_reads(bytes, j) && zip_entry_failure(bytes, j, e@)),
        (forall|j: int| 0 <= j < zip_opened(bytes)->Ok_0 ==> #[trigger] zip_entry_reads(bytes, j))
            ==> r.result is Ok,
{
    let n = zip_opened(bytes)->Ok_0 as int;
    if 0 <= k < n && !zip_entry_reads(bytes, k) {
        lemma_zip_check_from_fails(bytes, 0, n, k);
    }
    if forall|j: int| 0 <= j < n ==> #[trigger] zip_entry_reads(bytes, j) {
        lemma_zip_check_from_passes(bytes, 0, n);
    }
}

} // verus!
