//! tar backend, with optional gzip/bzip2/xz/zstd compression layers.
//!
//! Writing goes through `tar::Builder` into memory; reading asks `tar::Archive`
//! about one entry position at a time. What the tar crate writes and reads is
//! named; the facts stated about those names are that reading back what the
//! builder wrote gives the entries that were appended, in order, when their
//! names are plain relative paths and their modes fit the header.
use vstd::prelude::*;
use std::io::{Cursor, Read};
use crate::archive::format::{is_tar_family, Format};
use crate::archive::names::{sanitize_path, sanitized};
use crate::archive::{
    effects, is_selected, lemma_steps_inside_concat, selected, selection, step_inside, under,
    steps_inside, push_action, push_progress, push_report, reports_view, Action, BuildOutcome,
    CheckOutcome, Effect, EntryInfo, Plan, Progress, SourceEntry, entries_view, outcome_view,
};
use crate::codec::{decode, decoded, encode, encoded, magic, Codec};
use crate::archive::format::starts_with;
use crate::error::{failed_in, ArchiveError, ErrorView};
use crate::paths::{
    components, dot, dotdot, escapes, escapes_on, escapes_on_exec, has_drive, has_root, join_path,
    join_path_on, join_path_on_exec, lemma_comps_of_names, lemma_not_escaping_stays_inside_on,
    parent_on, parent_on_exec, pieces, comps_colon_free, lemma_parent_stays_inside, stays_inside_on,
};
use crate::archive::names::lemma_sanitized_stays_inside;
use crate::codec::io_error_text;
use crate::text::{bytes_copy, chars_of, concat_chars, string_from_vec, zeros};
use vstd::utf8::encode_utf8;

verus! {

/// One entry appended to a tar: its name, whether it is a directory, its
/// contents, and its mode, modification time, owner and group.
pub type TarItem = (Seq<char>, bool, Seq<u8>, u32, u64, u64, u64);

/// A header as read: path or error text, directory flag, size or error
/// text, and mode when readable.
pub type TarHeader = (Result<String, String>, bool, Result<u64, String>, Option<u32>);

/// A tar archive being written into memory.
#[verifier::external_body]
pub struct TarSink {
    builder: tar::Builder<Vec<u8>>,
}

/// The entries appended so far to `sink`, in order.
pub uninterp spec fn tar_log(sink: TarSink) -> Seq<TarItem>;

/// The bytes `tar::Builder::into_inner` hands back after the entries of
/// `log` were appended.
pub uninterp spec fn tar_built(log: Seq<TarItem>) -> Seq<u8>;

/// What the entries iterator of a `tar::Archive` over `image` yields at
/// position `i`: `Ok(true)` for an entry, `Ok(false)` past the last one, or
/// the text of the error.
pub uninterp spec fn tar_slot(image: Seq<u8>, i: int) -> Result<bool, Seq<char>>;

/// The header of entry `i` of `image`: its path (lossily as text) or the
/// error's text, whether it is a directory, its size or the error's text, and
/// its mode when it can be read.
pub uninterp spec fn tar_head(image: Seq<u8>, i: int) -> (
    Result<Seq<char>, Seq<char>>,
    bool,
    Result<u64, Seq<char>>,
    Option<u32>,
);

/// The contents of entry `i` of `image`, or the text of the read error.
pub uninterp spec fn tar_body(image: Seq<u8>, i: int) -> Result<Seq<u8>, Seq<char>>;

/// Whether `image` has an entry at position `i`.
pub open spec fn has_entry(image: Seq<u8>, i: int) -> bool {
    tar_slot(image, i) == Ok::<bool, Seq<char>>(true)
}

/// A name that the tar builder takes on Unix and stores as it is: not empty,
/// no NUL, relative, and made of non-empty `/`-separated pieces that are
/// neither `.` nor `..`.
pub open spec fn unix_clean(n: Seq<char>) -> bool {
    &&& n.len() > 0
    &&& !n.contains('\0')
    &&& !has_root(n)
    &&& forall|k: int|
        0 <= k < pieces(n).len() ==> {
            &&& (#[trigger] pieces(n)[k]).len() > 0
            &&& pieces(n)[k] != dot()
            &&& pieces(n)[k] != dotdot()
        }
}

/// A name that the tar builder takes and stores as it is on every platform:
/// clean on Unix, with no backslash (which Windows would turn into `/`) and
/// no drive prefix (which Windows refuses).
pub open spec fn clean_name(n: Seq<char>) -> bool {
    &&& unix_clean(n)
    &&& !n.contains('\\')
    &&& !has_drive(n, true)
}

/// `n` with every `\` read as `/`, as Windows stores a name.
pub open spec fn winform(n: Seq<char>) -> Seq<char> {
    n.map_values(|c: char| if c == '\\' {
        '/'
    } else {
        c
    })
}

/// A name that reads back either as it is or, where the platform reads `\`
/// as a separator, with `/` for each `\`, and that is clean either way: clean
/// on Unix, and its pieces with `\` read as `/` are neither empty nor `.` or
/// `..`.
pub open spec fn readable_name(n: Seq<char>) -> bool {
    &&& unix_clean(n)
    &&& !has_root(winform(n))
    &&& forall|k: int|
        0 <= k < pieces(winform(n)).len() ==> {
            &&& (#[trigger] pieces(winform(n))[k]).len() > 0
            &&& pieces(winform(n))[k] != dot()
            &&& pieces(winform(n))[k] != dotdot()
        }
}

/// Whether `m` is how the tar builder stores the name `n` on some platform.
pub open spec fn stored_as(n: Seq<char>, m: Seq<char>) -> bool {
    m == n || m == winform(n)
}

/// An entry whose name is readable and whose mode fits the header's mode
/// field.
pub open spec fn clean_item(it: TarItem) -> bool {
    readable_name(it.0) && it.3 < 0o10000000
}

/// Whether every name in `log` reads the same on every platform: no
/// backslash and no drive prefix.
pub open spec fn portable(log: Seq<TarItem>) -> bool {
    forall|k: int|
        0 <= k < log.len() ==> !(#[trigger] log[k]).0.contains('\\') && !has_drive(log[k].0, true)
}

/// How a tar built from `log` begins: with a zero block when there are no
/// entries; when the first entry's name is readable, with the UTF-8 bytes of
/// that name as stored (see `stored_as`), padded with zeros to the header's
/// 100-byte name field, when it fits there, and otherwise with the
/// `././@LongLink` entry that carries it.
pub open spec fn tar_leads(image: Seq<u8>, log: Seq<TarItem>) -> bool {
    if log.len() == 0 {
        image.len() > 0 && image[0] == 0
    } else if readable_name(log[0].0) {
        let b = encode_utf8(log[0].0);
        let c = encode_utf8(winform(log[0].0));
        image.len() >= 100 && if b.len() <= 100 {
            image.take(100) == b + zeros((100 - b.len()) as nat) || image.take(100) == c + zeros(
                (100 - c.len()) as nat,
            )
        } else {
            image[0] == 0x2Eu8
        }
    } else {
        true
    }
}

/// What reading `image` gives when it was built from `log`: it holds at
/// least a 512-byte block per entry and one more; and when every entry is
/// clean, reading gives the entries of `log` in order, each with its name
/// as the builder stored it (see `stored_as`), its directory flag, size,
/// mode and contents, and nothing after them.
pub open spec fn tar_reads_back(image: Seq<u8>, log: Seq<TarItem>) -> bool {
    &&& (log.len() + 1) * 512 <= image.len()
    &&& (forall|k: int| 0 <= k < log.len() ==> clean_item(#[trigger] log[k])) ==> {
        &&& forall|i: int|
            0 <= i < log.len() ==> {
                &&& #[trigger] tar_slot(image, i) == Ok::<bool, Seq<char>>(true)
                &&& tar_head(image, i).0 matches Ok(m) && stored_as(log[i].0, m)
                &&& tar_head(image, i).1 == log[i].1
                &&& tar_head(image, i).2 == Ok::<u64, Seq<char>>(log[i].2.len() as u64)
                &&& tar_head(image, i).3 == Some(log[i].3)
                &&& tar_body(image, i) == Ok::<Seq<u8>, Seq<char>>(log[i].2)
            }
        &&& tar_slot(image, log.len() as int) == Ok::<bool, Seq<char>>(false)
    }
}

/// Starts an empty tar in memory (`tar::Builder::new` over a `Vec<u8>`).
#[verifier::external_body]
fn tar_sink_new() -> (r: TarSink)
    ensures
        tar_log(r) == Seq::<TarItem>::empty(),
{
    TarSink { builder: tar::Builder::new(Vec::new()) }
}

/// Appends a directory entry with `tar::Builder::append_data`: a GNU header
/// of type directory, size 0, and the given mode, time, owner and group. On
/// success the entry is recorded. Writing into a `Vec` cannot fail, and the
/// header takes any clean name (a long one through the GNU long-name entry),
/// so the call succeeds for a clean name.
#[verifier::external_body]
fn tar_add_dir(
    sink: &mut TarSink,
    name: &str,
    mode: u32,
    mtime: u64,
    uid: u64,
    gid: u64,
) -> (r: Result<(), std::io::Error>)
    ensures
        r is Ok ==> tar_log(*final(sink)) == tar_log(*old(sink)).push(
            (name@, true, Seq::<u8>::empty(), mode, mtime, uid, gid),
        ),
        clean_name(name@) ==> r is Ok,
{
    let mut h = tar::Header::new_gnu();
    h.set_entry_type(tar::EntryType::Directory);
    h.set_size(0);
    h.set_mode(mode);
    h.set_mtime(mtime);
    h.set_uid(uid);
    h.set_gid(gid);
    sink.builder.append_data(&mut h, name, std::io::empty())
}

/// Appends a regular file with `tar::Builder::append_data`: a GNU header of
/// type regular, the contents' size, and the given mode, time, owner and
/// group, followed by the contents. On success the entry is recorded; as for
/// a directory, the call succeeds for a clean name.
#[verifier::external_body]
fn tar_add_file(
    sink: &mut TarSink,
    name: &str,
    data: &[u8],
    mode: u32,
    mtime: u64,
    uid: u64,
    gid: u64,
) -> (r: Result<(), std::io::Error>)
    ensures
        r is Ok ==> tar_log(*final(sink)) == tar_log(*old(sink)).push(
            (name@, false, data@, mode, mtime, uid, gid),
        ),
        clean_name(name@) ==> r is Ok,
{
    let mut h = tar::Header::new_gnu();
    h.set_entry_type(tar::EntryType::Regular);
    h.set_size(data.len() as u64);
    h.set_mode(mode);
    h.set_mtime(mtime);
    h.set_uid(uid);
    h.set_gid(gid);
    sink.builder.append_data(&mut h, name, data)
}

/// Finishes the archive with `tar::Builder::into_inner` (which writes the
/// end-of-archive blocks into the `Vec`, and so cannot fail) and hands back
/// its bytes. The contract claims that reading them back gives the entries
/// appended (see `tar_reads_back`), how they begin (see `tar_leads`: the
/// first header's name field comes first), and that they are a function of those
/// entries when their names are portable: Windows stores a `\` in a name
/// as `/`, so for other names the bytes are left unsaid.
#[verifier::external_body]
fn tar_finish(sink: TarSink) -> (r: Result<Vec<u8>, std::io::Error>)
    ensures
        r is Ok,
        r matches Ok(v) ==> (portable(tar_log(sink)) ==> v@ == tar_built(tar_log(sink))),
        r matches Ok(v) ==> tar_reads_back(v@, tar_log(sink)),
        r matches Ok(v) ==> tar_leads(v@, tar_log(sink)),
{
    sink.builder.into_inner()
}

/// Asks `tar::Archive::entries_with_seek` over `image` for entry `i` (with
/// `nth`). Each entry takes at least one 512-byte header block.
#[verifier::external_body]
fn tar_entry_present(image: &[u8], i: usize) -> (r: Result<bool, String>)
    ensures
        match r {
            Ok(b) => tar_slot(image@, i as int) == Ok::<bool, Seq<char>>(b),
            Err(m) => tar_slot(image@, i as int) == Err::<bool, Seq<char>>(m@),
        },
        r matches Ok(true) ==> (i + 1) * 512 <= image@.len(),
{
    let mut ar = tar::Archive::new(Cursor::new(image));
    let mut entries = match ar.entries_with_seek() {
        Ok(es) => es,
        Err(e) => return Err(e.to_string()),
    };
    match entries.nth(i) {
        None => Ok(false),
        Some(Ok(_)) => Ok(true),
        Some(Err(e)) => Err(e.to_string()),
    }
}

/// The header of entry `i` of `image`: `Entry::path` (as lossy text),
/// `EntryType::is_dir`, `Header::size` and `Header::mode`, with errors as text.
#[verifier::external_body]
fn tar_entry_head(image: &[u8], i: usize) -> (r: Option<TarHeader>)
    ensures
        r is Some <==> has_entry(image@, i as int),
        r matches Some(h) ==> head_view(h) == tar_head(image@, i as int),
{
    let mut ar = tar::Archive::new(Cursor::new(image));
    let e = ar.entries_with_seek().ok()?.nth(i)?.ok()?;
    let h = e.header();
    let path = match e.path() {
        Ok(p) => Ok(p.to_string_lossy().into_owned()),
        Err(x) => Err(x.to_string()),
    };
    let size = match h.size() {
        Ok(s) => Ok(s),
        Err(x) => Err(x.to_string()),
    };
    Some((path, h.entry_type().is_dir(), size, h.mode().ok()))
}

/// The contents of entry `i` of `image`, read to the end, or the error's text.
#[verifier::external_body]
fn tar_entry_body(image: &[u8], i: usize) -> (r: Option<Result<Vec<u8>, String>>)
    ensures
        r is Some <==> has_entry(image@, i as int),
        r matches Some(b) ==> bytes_view(b) == tar_body(image@, i as int),
{
    let mut ar = tar::Archive::new(Cursor::new(image));
    let mut e = ar.entries_with_seek().ok()?.nth(i)?.ok()?;
    let mut out = Vec::new();
    Some(
        match e.read_to_end(&mut out) {
            Ok(_) => Ok(out),
            Err(x) => Err(x.to_string()),
        },
    )
}

/// A text or an error text, as sequences.
pub open spec fn text_view(r: Result<String, String>) -> Result<Seq<char>, Seq<char>> {
    match r {
        Ok(s) => Ok(s@),
        Err(m) => Err(m@),
    }
}

/// A size or an error text, as sequences.
pub open spec fn size_view(r: Result<u64, String>) -> Result<u64, Seq<char>> {
    match r {
        Ok(s) => Ok(s),
        Err(m) => Err(m@),
    }
}

/// Bytes or an error text, as sequences.
pub open spec fn bytes_view(r: Result<Vec<u8>, String>) -> Result<Seq<u8>, Seq<char>> {
    match r {
        Ok(v) => Ok(v@),
        Err(m) => Err(m@),
    }
}

/// A header as read, as sequences.
pub open spec fn head_view(h: TarHeader) -> (
    Result<Seq<char>, Seq<char>>,
    bool,
    Result<u64, Seq<char>>,
    Option<u32>,
) {
    (text_view(h.0), h.1, size_view(h.2), h.3)
}

/// The mode a staged entry is archived with: its own, or, where the platform
/// has none, 0o755 for a directory and 0o644 for a file.
pub open spec fn mode_of(s: SourceEntry) -> u32 {
    match s.mode {
        Some(m) => m,
        None => if s.is_dir {
            0o755u32
        } else {
            0o644u32
        },
    }
}

/// The tar entry a staged entry becomes (a directory has no contents).
pub open spec fn item_of(s: SourceEntry) -> TarItem {
    (
        s.name@,
        s.is_dir,
        if s.is_dir {
            Seq::<u8>::empty()
        } else {
            s.data@
        },
        mode_of(s),
        s.mtime,
        s.uid,
        s.gid,
    )
}

/// The tar entries for the staged entries, in order.
pub open spec fn log_of(s: Seq<SourceEntry>) -> Seq<TarItem> {
    s.map_values(|e: SourceEntry| item_of(e))
}

/// The compressor around the tar stream of a tar-family format.
pub open spec fn layer(f: Format) -> Option<Codec> {
    match f {
        Format::TarGz => Some(Codec::Gzip),
        Format::TarBz2 => Some(Codec::Bzip2),
        Format::TarXz => Some(Codec::Xz),
        Format::TarZst => Some(Codec::Zstd),
        _ => None,
    }
}

/// The archive bytes for the tar stream `t` in format `f`.
pub open spec fn wrapped(f: Format, t: Seq<u8>) -> Seq<u8> {
    match layer(f) {
        Some(c) => encoded(c, t),
        None => t,
    }
}

/// The tar stream inside archive bytes `b` of format `f`, when they decompress.
pub open spec fn unwrapped(f: Format, b: Seq<u8>) -> Option<Seq<u8>> {
    match layer(f) {
        Some(c) => decoded(c, b),
        None => Some(b),
    }
}

/// The reports of the first `k` entries while building from `s`.
pub open spec fn adding_reports(s: Seq<SourceEntry>, k: int) -> Seq<(u64, u64, Seq<char>)> {
    Seq::new(k as nat, |i: int| (i as u64, s.len() as u64, s[i].name@))
}

fn layer_of(f: Format) -> (r: Option<Codec>)
    ensures
        r == layer(f),
{
    match f {
        Format::TarGz => Some(Codec::Gzip),
        Format::TarBz2 => Some(Codec::Bzip2),
        Format::TarXz => Some(Codec::Xz),
        Format::TarZst => Some(Codec::Zstd),
        _ => None,
    }
}

pub(crate) fn with_prefix(prefix: &str, s: &str) -> (r: String)
    ensures
        r@ == prefix@ + s@,
{
    string_from_vec(&concat_chars(&chars_of(prefix), &chars_of(s)))
}

/// Whether every staged entry has a clean name.
pub open spec fn clean_names(sources: Seq<SourceEntry>) -> bool {
    forall|k: int| 0 <= k < sources.len() ==> clean_name(#[trigger] sources[k].name@)
}

/// What building a tar-family archive of format `format` from `sources`
/// gives. With clean names every entry is added and the archive is always
/// built.
pub open spec fn created(format: Format, sources: Seq<SourceEntry>, r: BuildOutcome) -> bool {
    &&& clean_names(sources) ==> r.result is Ok
    &&& match r.result {
        Ok(v) => {
            &&& portable(log_of(sources)) ==> v@ == wrapped(format, tar_built(log_of(sources)))
            &&& unwrapped(format, v@) matches Some(t) && tar_reads_back(t, log_of(sources))
                && tar_leads(t, log_of(sources)) && (portable(log_of(sources)) ==> t == tar_built(
                log_of(sources),
            ))
            &&& layer(format) matches Some(c) ==> starts_with(v@, magic(c))
            &&& reports_view(r.reports@) =~= adding_reports(
                sources,
                sources.len() as int,
            ).push((sources.len() as u64, sources.len() as u64, "done"@))
        },
        Err(e) => {
            ||| {
                &&& e is Io
                &&& reports_view(r.reports@) =~= adding_reports(
                    sources,
                    sources.len() as int,
                ).push((sources.len() as u64, sources.len() as u64, "done"@))
            }
            ||| exists|k: int|
                0 <= k < sources.len() && reports_view(r.reports@) =~= #[trigger] adding_reports(
                    sources,
                    k + 1,
                ) && failed_in(e@, "adding "@ + sources[k].name@)
        },
    }
}

/// Builds a tar (compressed as the format says) holding the staged entries,
/// in order. Reports each entry's name before adding it, then `done`.
pub fn create(format: Format, sources: &[SourceEntry]) -> (r: BuildOutcome)
    requires
        is_tar_family(format),
    ensures
        created(format, sources@, r),
{
    let n = sources.len();
    let total = n as u64;
    let mut reports: Vec<Progress> = Vec::new();
    let mut sink = tar_sink_new();
    let mut i: usize = 0;
    while i < n
        invariant
            n == sources@.len(),
            total == n,
            i <= n,
            tar_log(sink) == log_of(sources@.take(i as int)),
            reports_view(reports@) == adding_reports(sources@, i as int),
        decreases n - i,
    {
        let s = &sources[i];
        assert(s.name@ == sources@[i as int].name@);
        push_progress(&mut reports, i as u64, total, s.name.clone());
        assert(reports_view(reports@) =~= adding_reports(sources@, i + 1));
        let mode: u32 = match s.mode {
            Some(m) => m,
            None => if s.is_dir {
                0o755
            } else {
                0o644
            },
        };
        let res = if s.is_dir {
            tar_add_dir(&mut sink, s.name.as_str(), mode, s.mtime, s.uid, s.gid)
        } else {
            tar_add_file(&mut sink, s.name.as_str(), s.data.as_slice(), mode, s.mtime, s.uid, s.gid)
        };
        match res {
            Ok(()) => {},
            Err(e) => {
                assert(clean_names(sources@) ==> clean_name(sources@[i as int].name@));
                let context = with_prefix("adding ", s.name.as_str());
                return BuildOutcome {
                    reports,
                    result: Err(ArchiveError::Failed { context, detail: io_error_text(&e) }),
                };
            },
        }
        assert(log_of(sources@.take(i + 1)) =~= log_of(sources@.take(i as int)).push(
            item_of(sources@[i as int]),
        ));
        i = i + 1;
    }
    assert(sources@.take(n as int) =~= sources@);
    push_progress(&mut reports, total, total, "done".to_string());
    proof {
        if clean_names(sources@) {
            assert forall|k: int|
                0 <= k < log_of(sources@).len() implies !(#[trigger] log_of(sources@)[k]).0.contains(
                '\\',
            ) && !has_drive(log_of(sources@)[k].0, true) by {
                assert(log_of(sources@)[k].0 == sources@[k].name@);
                assert(clean_name(sources@[k].name@));
            }
        }
    }
    let t = match tar_finish(sink) {
        Ok(t) => t,
        Err(e) => {
            return BuildOutcome { reports, result: Err(ArchiveError::Io { detail: io_error_text(&e) }) };
        },
    };
    match layer_of(format) {
        None => BuildOutcome { reports, result: Ok(t) },
        Some(c) => match encode(c, t.as_slice()) {
            Ok(v) => BuildOutcome { reports, result: Ok(v) },
            Err(m) => BuildOutcome { reports, result: Err(ArchiveError::Io { detail: m }) },
        },
    }
}

/// The listing of `image` from entry `i` on: each entry's path, its size
/// (0 when unreadable) twice, and its directory flag; or the first error.
pub open spec fn list_from(image: Seq<u8>, i: int) -> Result<
    Seq<(Seq<char>, u64, u64, bool)>,
    ErrorView,
>
    decreases image.len() + 1 - i,
{
    if i < 0 || i > image.len() {
        Ok(seq![])
    } else {
        match tar_slot(image, i) {
            Err(m) => Err(ErrorView::Io(m)),
            Ok(false) => Ok(seq![]),
            Ok(true) => {
                let h = tar_head(image, i);
                match h.0 {
                    Err(m) => Err(ErrorView::Io(m)),
                    Ok(p) => {
                        let size = match h.2 {
                            Ok(z) => z,
                            Err(_) => 0u64,
                        };
                        match list_from(image, i + 1) {
                            Ok(rest) => Ok(seq![(p, size, size, h.1)] + rest),
                            Err(e) => Err(e),
                        }
                    },
                }
            },
        }
    }
}

/// `r` with `xs` put in front of its items.
pub open spec fn prepend<T>(xs: Seq<T>, r: Result<Seq<T>, ErrorView>) -> Result<Seq<T>, ErrorView> {
    match r {
        Ok(rest) => Ok(xs + rest),
        Err(e) => Err(e),
    }
}

/// The tar stream inside `bytes`, decompressed as the format says.
fn open_stream(format: Format, bytes: &[u8]) -> (r: Result<Vec<u8>, String>)
    ensures
        r is Ok <==> unwrapped(format, bytes@) is Some,
        r matches Ok(v) ==> unwrapped(format, bytes@) == Some(v@),
{
    match layer_of(format) {
        None => Ok(bytes_copy(bytes)),
        Some(c) => decode(c, bytes),
    }
}

/// What listing the tar-family archive `bytes` of format `format` gives.
pub open spec fn listed(
    format: Format,
    bytes: Seq<u8>,
    r: Result<Vec<EntryInfo>, ArchiveError>,
) -> bool {
    match unwrapped(format, bytes) {
        None => r matches Err(e) && e is Io,
        Some(image) => match list_from(image, 0) {
            Ok(es) => r matches Ok(v) && entries_view(v@) =~= es,
            Err(ev) => r matches Err(e) && e@ == ev,
        },
    }
}

/// Lists the entries of a tar archive: path, size (as both sizes) and
/// whether each is a directory.
pub fn list(format: Format, bytes: &[u8]) -> (r: Result<Vec<EntryInfo>, ArchiveError>)
    requires
        is_tar_family(format),
    ensures
        listed(format, bytes@, r),
{
    let image = match open_stream(format, bytes) {
        Ok(v) => v,
        Err(m) => return Err(ArchiveError::Io { detail: m }),
    };
    let ghost img = image@;
    let mut out: Vec<EntryInfo> = Vec::new();
    let mut i: usize = 0;
    while i <= image.len()
        invariant
            img == image@,
            unwrapped(format, bytes@) == Some(img),
            i <= img.len() + 1,
            list_from(img, 0) == prepend(entries_view(out@), list_from(img, i as int)),
        decreases img.len() + 1 - i,
    {
        match tar_entry_present(image.as_slice(), i) {
            Err(m) => {
                return Err(ArchiveError::Io { detail: m });
            },
            Ok(false) => {
                assert(entries_view(out@) + seq![] =~= entries_view(out@));
                return Ok(out);
            },
            Ok(true) => {},
        }
        let h = match tar_entry_head(image.as_slice(), i) {
            Some(h) => h,
            None => {
                return Err(ArchiveError::Io { detail: String::new() });
            },
        };
        let (path, is_dir, size, _mode) = h;
        let name = match path {
            Ok(p) => p,
            Err(m) => {
                return Err(ArchiveError::Io { detail: m });
            },
        };
        let z: u64 = match size {
            Ok(z) => z,
            Err(_) => 0,
        };
        let ghost before = entries_view(out@);
        let e = EntryInfo { name, size: z, compressed: z, is_dir };
        let ghost ev = e@;
        out.push(e);
        assert(entries_view(out@) =~= before.push(ev));
        assert(before.push(ev) + match list_from(img, i + 1) {
            Ok(rest) => rest,
            Err(_) => seq![],
        } =~= before + (seq![ev] + match list_from(img, i + 1) {
            Ok(rest) => rest,
            Err(_) => seq![],
        }));
        i = i + 1;
    }
    Ok(out)
}

/// The directory to create before writing the file at the relative path
/// `p` under `dest`: the parent of `p` under `dest`, or `dest` itself when
/// `p` is a single name.
pub open spec fn parent_dirs(dest: Seq<char>, p: Seq<char>, windows: bool) -> Seq<Effect> {
    match parent_on(p, windows) {
        Some(q) => seq![
            Effect::MakeDir(
                if q.len() == 0 {
                    dest
                } else {
                    join_path_on(dest, q, windows)
                },
            ),
        ],
        None => seq![],
    }
}

/// The check made before writing `out`: none when overwriting is allowed.
pub open spec fn guard(out: Seq<char>, force: bool) -> Seq<Effect> {
    if force {
        seq![]
    } else {
        seq![Effect::EnsureAbsent(out)]
    }
}

/// The steps for entry `i` of `image` when `idx` entries were extracted
/// before it; then either how the extraction ends, or none to go on with the
/// next entry, and the count of extracted entries so far.
pub open spec fn entry_step(
    image: Seq<u8>,
    i: int,
    idx: nat,
    dest: Seq<char>,
    sel: Option<Seq<Seq<char>>>,
    force: bool,
    windows: bool,
) -> (Seq<Effect>, Option<Result<(), ErrorView>>, nat) {
    match tar_slot(image, i) {
        Err(m) => (seq![], Some(Err(ErrorView::Io(m))), idx),
        Ok(false) => (seq![Effect::Report(idx as u64, idx as u64, "done"@)], Some(Ok(())), idx),
        Ok(true) => {
            let h = tar_head(image, i);
            match h.0 {
                Err(m) => (seq![], Some(Err(ErrorView::Io(m))), idx),
                Ok(raw) => if !selected(sel, raw) {
                    (seq![], None, idx)
                } else if escapes_on(raw, windows) {
                    (seq![], Some(Err(ErrorView::UnsafePath(raw))), idx)
                } else {
                    let safe = sanitized(raw, windows);
                    let out = join_path_on(dest, safe, windows);
                    let rep = seq![Effect::Report(idx as u64, 0, safe)];
                    if h.1 {
                        (rep + seq![Effect::MakeDir(out)], None, idx + 1)
                    } else {
                        let pre = rep + parent_dirs(dest, safe, windows) + guard(out, force);
                        match tar_body(image, i) {
                            Err(m) => (
                                pre + seq![Effect::Write(out, Seq::<u8>::empty(), None, false)],
                                Some(Err(ErrorView::Io(m))),
                                idx,
                            ),
                            Ok(d) => (pre + seq![Effect::Write(out, d, h.3, false)], None, idx + 1),
                        }
                    }
                },
            }
        },
    }
}

/// The steps of extracting `image` from entry `i` on into `dest`, `idx`
/// entries having been extracted before, and how the extraction ends.
pub open spec fn extract_from(
    image: Seq<u8>,
    i: int,
    idx: nat,
    dest: Seq<char>,
    sel: Option<Seq<Seq<char>>>,
    force: bool,
    windows: bool,
) -> (Seq<Effect>, Result<(), ErrorView>)
    decreases image.len() + 1 - i,
{
    if i < 0 || i > image.len() {
        (seq![], Ok(()))
    } else {
        let s = entry_step(image, i, idx, dest, sel, force, windows);
        match s.1 {
            Some(o) => (s.0, o),
            None => {
                let rest = extract_from(image, i + 1, s.2, dest, sel, force, windows);
                (s.0 + rest.0, rest.1)
            },
        }
    }
}

/// Appends `MakeDir` of the parent of `out`, if it has one.
pub(crate) fn push_parent(acts: &mut Vec<Action>, dest: &Vec<char>, p: &Vec<char>, windows: bool)
    ensures
        effects(final(acts)@) == effects(old(acts)@) + parent_dirs(dest@, p@, windows),
{
    match parent_on_exec(p, windows) {
        Some(q) => {
            let dir = if q.len() == 0 {
                dest.clone()
            } else {
                join_path_on_exec(dest, &q, windows)
            };
            push_action(acts, Action::MakeDir(string_from_vec(&dir)));
            assert(effects(acts@) =~= effects(old(acts)@) + parent_dirs(dest@, p@, windows));
        },
        None => {
            assert(effects(acts@) =~= effects(old(acts)@) + parent_dirs(dest@, p@, windows));
        },
    }
}

/// Appends the overwrite check for `out` unless `force`.
pub(crate) fn push_guard(acts: &mut Vec<Action>, out: &String, force: bool)
    ensures
        effects(final(acts)@) == effects(old(acts)@) + guard(out@, force),
{
    if !force {
        push_action(acts, Action::EnsureAbsent(out.clone()));
    }
    assert(effects(acts@) =~= effects(old(acts)@) + guard(out@, force));
}

/// Plans entry `i`: appends its steps and, when the extraction ends with it,
/// returns how; otherwise counts it in `idx` if it was extracted.
fn plan_entry(
    image: &Vec<u8>,
    i: usize,
    idx: &mut u64,
    d: &Vec<char>,
    sel: Option<&Vec<String>>,
    force: bool,
    windows: bool,
    acts: &mut Vec<Action>,
) -> (r: Option<Result<(), ArchiveError>>)
    requires
        *old(idx) <= i,
    ensures
        ({
            let st = entry_step(image@, i as int, *old(idx) as nat, d@, selection(sel), force, windows);
            &&& effects(final(acts)@) == effects(old(acts)@) + st.0
            &&& r is None <==> st.1 is None
            &&& r matches Some(o) ==> st.1 == Some(outcome_view(o))
            &&& r is None ==> *final(idx) as nat == st.2 && (i + 1) * 512 <= image@.len()
                && *final(idx) <= i + 1
        }),
{
    let ghost old_acts = effects(acts@);
    match tar_entry_present(image.as_slice(), i) {
        Err(m) => {
            return Some(Err(ArchiveError::Io { detail: m }));
        },
        Ok(false) => {
            push_report(acts, *idx, *idx, "done".to_string());
            return Some(Ok(()));
        },
        Ok(true) => {},
    }
    let n = image.len();
    assert(i + 1 <= n);
    assert(usize::MAX as int <= u64::MAX as int);
    let h = match tar_entry_head(image.as_slice(), i) {
        Some(h) => h,
        None => {
            return Some(Ok(()));
        },
    };
    let (path, is_dir, _size, mode) = h;
    let raw = match path {
        Ok(p) => p,
        Err(m) => {
            return Some(Err(ArchiveError::Io { detail: m }));
        },
    };
    let rawc = chars_of(raw.as_str());
    if !is_selected(sel, &rawc) {
        assert(effects(acts@) =~= old_acts + seq![]);
        return None;
    }
    if escapes_on_exec(&rawc, windows) {
        assert(effects(acts@) =~= old_acts + seq![]);
        return Some(Err(ArchiveError::UnsafePath { name: raw }));
    }
    let safe = sanitize_path(raw.as_str(), windows);
    let safec = chars_of(safe.as_str());
    let outc = join_path_on_exec(d, &safec, windows);
    let out = string_from_vec(&outc);
    push_report(acts, *idx, 0, safe);
    if is_dir {
        push_action(acts, Action::MakeDir(out));
    } else {
        push_parent(acts, d, &safec, windows);
        push_guard(acts, &out, force);
        let body = match tar_entry_body(image.as_slice(), i) {
            Some(b) => b,
            None => {
                return Some(Ok(()));
            },
        };
        match body {
            Ok(data) => {
                push_action(acts, Action::Write { path: out, data, mode, strict: false });
            },
            Err(m) => {
                push_action(acts, Action::Write { path: out, data: Vec::new(), mode: None, strict: false });
                return Some(Err(ArchiveError::Io { detail: m }));
            },
        }
    }
    *idx = *idx + 1;
    None
}

/// What planning the extraction of the tar-family archive `bytes` gives.
pub open spec fn planned(
    format: Format,
    bytes: Seq<u8>,
    dest: Seq<char>,
    sel: Option<Seq<Seq<char>>>,
    force: bool,
    windows: bool,
    r: Plan,
) -> bool {
    match unwrapped(format, bytes) {
        None => effects(r.actions@) =~= seq![Effect::MakeDir(dest)] && (r.outcome matches Err(
            e) && e is Io),
        Some(image) => {
            let x = extract_from(image, 0, 0, dest, sel, force, windows);
            &&& effects(r.actions@) =~= seq![Effect::MakeDir(dest)] + x.0
            &&& outcome_view(r.outcome) == x.1
        },
    }
}

/// Plans the extraction of a tar archive into `dest`: every entry, or, with
/// `sel`, those whose path is one of the names. An entry that is absolute or
/// has a `..` component stops the extraction.
pub fn extract(
    format: Format,
    bytes: &[u8],
    dest: &str,
    sel: Option<&Vec<String>>,
    force: bool,
    windows: bool,
) -> (r: Plan)
    requires
        is_tar_family(format),
    ensures
        planned(format, bytes@, dest@, selection(sel), force, windows, r),
{
    let mut acts: Vec<Action> = Vec::new();
    push_action(&mut acts, Action::MakeDir(dest.to_string()));
    let image = match open_stream(format, bytes) {
        Ok(v) => v,
        Err(m) => return Plan { actions: acts, outcome: Err(ArchiveError::Io { detail: m }) },
    };
    let ghost img = image@;
    let ghost sv = selection(sel);
    let ghost full = extract_from(img, 0, 0, dest@, sv, force, windows);
    let d = chars_of(dest);
    let mut i: usize = 0;
    let mut idx: u64 = 0;
    while i <= image.len()
        invariant
            img == image@,
            unwrapped(format, bytes@) == Some(img),
            d@ == dest@,
            sv == selection(sel),
            full == extract_from(img, 0, 0, dest@, sv, force, windows),
            i <= img.len() + 1,
            idx <= i,
            seq![Effect::MakeDir(dest@)] + full.0 == effects(acts@) + extract_from(
                img,
                i as int,
                idx as nat,
                dest@,
                sv,
                force,
                windows,
            ).0,
            full.1 == extract_from(img, i as int, idx as nat, dest@, sv, force, windows).1,
        decreases img.len() + 1 - i,
    {
        let ghost before = effects(acts@);
        let ghost st = entry_step(img, i as int, idx as nat, dest@, sv, force, windows);
        let ghost rest = extract_from(img, i + 1, st.2, dest@, sv, force, windows);
        let stop = plan_entry(&image, i, &mut idx, &d, sel, force, windows, &mut acts);
        match stop {
            Some(o) => {
                assert(effects(acts@) =~= before + st.0);
                return Plan { actions: acts, outcome: o };
            },
            None => {
                assert(before + (st.0 + rest.0) =~= effects(acts@) + rest.0);
            },
        }
        i = i + 1;
    }
    Plan { actions: acts, outcome: Ok(()) }
}

/// The reports of checking `image` from entry `i` on, and how it ends: each
/// entry's path is reported before its contents are read through.
pub open spec fn check_from(image: Seq<u8>, i: int) -> (
    Seq<(u64, u64, Seq<char>)>,
    Result<(), ErrorView>,
)
    decreases image.len() + 1 - i,
{
    if i < 0 || i > image.len() {
        (seq![], Ok(()))
    } else {
        match tar_slot(image, i) {
            Err(m) => (seq![], Err(ErrorView::Io(m))),
            Ok(false) => (seq![(i as u64, i as u64, "ok"@)], Ok(())),
            Ok(true) => match tar_head(image, i).0 {
                Err(m) => (seq![], Err(ErrorView::Io(m))),
                Ok(name) => {
                    let rep = seq![(i as u64, 0u64, name)];
                    match tar_body(image, i) {
                        Err(m) => (rep, Err(ErrorView::Failed("verifying "@ + name, m))),
                        Ok(_) => {
                            let rest = check_from(image, i + 1);
                            (rep + rest.0, rest.1)
                        },
                    }
                },
            },
        }
    }
}

/// What checking the tar-family archive `bytes` gives.
pub open spec fn checked(format: Format, bytes: Seq<u8>, r: CheckOutcome) -> bool {
    match unwrapped(format, bytes) {
        None => r.reports@.len() == 0 && (r.result matches Err(e) && e is Io),
        Some(image) => {
            &&& reports_view(r.reports@) =~= check_from(image, 0).0
            &&& outcome_view(r.result) == check_from(image, 0).1
        },
    }
}

/// Checks a tar archive by reading every entry through.
pub fn test(format: Format, bytes: &[u8]) -> (r: CheckOutcome)
    requires
        is_tar_family(format),
    ensures
        checked(format, bytes@, r),
{
    let mut reports: Vec<Progress> = Vec::new();
    let image = match open_stream(format, bytes) {
        Ok(v) => v,
        Err(m) => return CheckOutcome { reports, result: Err(ArchiveError::Io { detail: m }) },
    };
    let ghost img = image@;
    let ghost full = check_from(img, 0);
    let n = image.len();
    let mut i: usize = 0;
    while i <= n
        invariant
            img == image@,
            n == img.len(),
            unwrapped(format, bytes@) == Some(img),
            full == check_from(img, 0),
            i <= n + 1,
            full.0 == reports_view(reports@) + check_from(img, i as int).0,
            full.1 == check_from(img, i as int).1,
        decreases n + 1 - i,
    {
        let ghost before = reports_view(reports@);
        let ghost cur = check_from(img, i as int);
        match tar_entry_present(image.as_slice(), i) {
            Err(m) => {
                assert(before + cur.0 =~= before);
                return CheckOutcome { reports, result: Err(ArchiveError::Io { detail: m }) };
            },
            Ok(false) => {
                push_progress(&mut reports, i as u64, i as u64, "ok".to_string());
                return CheckOutcome { reports, result: Ok(()) };
            },
            Ok(true) => {},
        }
        assert(i + 1 <= n);
        let h = match tar_entry_head(image.as_slice(), i) {
            Some(h) => h,
            None => {
                return CheckOutcome { reports, result: Ok(()) };
            },
        };
        let (path, _is_dir, _size, _mode) = h;
        let name = match path {
            Ok(p) => p,
            Err(m) => {
                assert(before + cur.0 =~= before);
                return CheckOutcome { reports, result: Err(ArchiveError::Io { detail: m }) };
            },
        };
        let context = with_prefix("verifying ", name.as_str());
        push_progress(&mut reports, i as u64, 0, name);
        match tar_entry_body(image.as_slice(), i) {
            Some(Ok(_)) => {},
            Some(Err(m)) => {
                return CheckOutcome {
                    reports,
                    result: Err(ArchiveError::Failed { context, detail: m }),
                };
            },
            None => {
                return CheckOutcome { reports, result: Ok(()) };
            },
        }
        let ghost rest = check_from(img, i + 1);
        assert(before + (seq![cur.0[0]] + rest.0) =~= reports_view(reports@) + rest.0);
        i = i + 1;
    }
    CheckOutcome { reports, result: Ok(()) }
}

/// The names the entries of `image` hold, as read, for its first `n`
/// entries.
pub open spec fn stored_names(image: Seq<u8>, n: nat) -> Seq<Seq<char>> {
    Seq::new(n, |i: int| tar_head(image, i).0->Ok_0)
}

/// What extracting the staged entries `s`, stored under the names `ns`, from
/// the `k`-th on restores under `dest`: each entry reported by its name, a
/// directory created, a file written with its contents and mode; then
/// `done`.
pub open spec fn restored_from(
    s: Seq<SourceEntry>,
    ns: Seq<Seq<char>>,
    k: int,
    dest: Seq<char>,
    force: bool,
) -> Seq<Effect>
    decreases s.len() - k,
{
    if k < 0 || k >= s.len() {
        seq![Effect::Report(s.len() as u64, s.len() as u64, "done"@)]
    } else {
        let it = item_of(s[k]);
        let name = ns[k];
        let out = join_path(dest, name);
        let rep = seq![Effect::Report(k as u64, 0, name)];
        let here = if it.1 {
            rep + seq![Effect::MakeDir(out)]
        } else {
            rep + parent_dirs(dest, name, false) + guard(out, force) + seq![
                Effect::Write(out, it.2, Some(it.3), false),
            ]
        };
        here + restored_from(s, ns, k + 1, dest, force)
    }
}

/// A relative name whose pieces are neither empty nor `.` or `..` stays
/// inside the directory it is extracted into.
pub proof fn lemma_clean_stays(n: Seq<char>)
    requires
        !has_root(n),
        forall|k: int|
            0 <= k < pieces(n).len() ==> {
                &&& (#[trigger] pieces(n)[k]).len() > 0
                &&& pieces(n)[k] != dot()
                &&& pieces(n)[k] != dotdot()
            },
    ensures
        !escapes(n),
{
    lemma_comps_of_names(pieces(n));
    if components(n).contains(dotdot()) {
        let k = choose|k: int| 0 <= k < components(n).len() && components(n)[k] == dotdot();
        assert(pieces(n)[k] != dotdot());
    }
}

proof fn lemma_restore_from(
    sources: Seq<SourceEntry>,
    image: Seq<u8>,
    k: int,
    dest: Seq<char>,
    force: bool,
)
    requires
        0 <= k <= sources.len(),
        forall|j: int| 0 <= j < sources.len() ==> clean_item(#[trigger] item_of(sources[j])),
        tar_reads_back(image, log_of(sources)),
    ensures
        extract_from(image, k, k as nat, dest, None, force, false) == (
            restored_from(sources, stored_names(image, sources.len()), k, dest, force),
            Ok::<(), ErrorView>(()),
        ),
    decreases sources.len() - k,
{
    let log = log_of(sources);
    assert forall|j: int| 0 <= j < log.len() implies clean_item(#[trigger] log[j]) by {
        assert(log[j] == item_of(sources[j]));
    }
    if k == sources.len() {
        assert(tar_slot(image, log.len() as int) == Ok::<bool, Seq<char>>(false));
    } else {
        lemma_restore_from(sources, image, k + 1, dest, force);
        let it = item_of(sources[k]);
        assert(log[k] == it);
        assert(tar_slot(image, k) == Ok::<bool, Seq<char>>(true));
        let m = tar_head(image, k).0->Ok_0;
        assert(stored_names(image, sources.len())[k] == m);
        if m == it.0 {
            lemma_clean_stays(it.0);
        } else {
            lemma_clean_stays(winform(it.0));
        }
    }
}

/// The names stored for staged entries with readable names are each the
/// staged name, or the name with `/` for `\`.
pub proof fn lemma_stored_names(sources: Seq<SourceEntry>, image: Seq<u8>)
    requires
        forall|j: int| 0 <= j < sources.len() ==> clean_item(#[trigger] item_of(sources[j])),
        tar_reads_back(image, log_of(sources)),
    ensures
        stored_names(image, sources.len()).len() == sources.len(),
        forall|k: int|
            0 <= k < sources.len() ==> stored_as(
                sources[k].name@,
                #[trigger] stored_names(image, sources.len())[k],
            ),
{
    let log = log_of(sources);
    assert forall|j: int| 0 <= j < log.len() implies clean_item(#[trigger] log[j]) by {
        assert(log[j] == item_of(sources[j]));
    }
    assert forall|k: int| 0 <= k < sources.len() implies stored_as(
        sources[k].name@,
        #[trigger] stored_names(image, sources.len())[k],
    ) by {
        assert(log[k] == item_of(sources[k]));
        assert(tar_slot(image, k) == Ok::<bool, Seq<char>>(true));
    }
}

/// Extracting an archive that `create` built from staged entries with
/// readable names and modes that fit the header restores every entry, in
/// order, under `dest`, each under its name as stored (the staged name, or,
/// where the platform reads `\` as a separator, the name with `/` for each
/// `\`): each reported, a directory created, a file written with its
/// contents and mode; and the extraction succeeds.
pub proof fn lemma_round_trip(
    format: Format,
    sources: Seq<SourceEntry>,
    bytes: Seq<u8>,
    dest: Seq<char>,
    force: bool,
)
    requires
        is_tar_family(format),
        forall|j: int| 0 <= j < sources.len() ==> clean_item(#[trigger] item_of(sources[j])),
        unwrapped(format, bytes) matches Some(t) && tar_reads_back(t, log_of(sources)),
    ensures
        unwrapped(format, bytes) matches Some(image) && {
            let ns = stored_names(image, sources.len());
            &&& forall|k: int| 0 <= k < sources.len() ==> stored_as(sources[k].name@, #[trigger] ns[k])
            &&& extract_from(image, 0, 0, dest, None, force, false) == (
                restored_from(sources, ns, 0, dest, force),
                Ok::<(), ErrorView>(()),
            )
        },
{
    let image = unwrapped(format, bytes)->Some_0;
    lemma_restore_from(sources, image, 0, dest, force);
    lemma_stored_names(sources, image);
}

/// The listing of staged entries from the `k`-th on, stored under the names
/// `ns`: name, size twice (0 for a directory), directory flag.
pub open spec fn listed_from(s: Seq<SourceEntry>, ns: Seq<Seq<char>>, k: int) -> Seq<
    (Seq<char>, u64, u64, bool),
>
    decreases s.len() - k,
{
    if k < 0 || k >= s.len() {
        seq![]
    } else {
        let it = item_of(s[k]);
        seq![(ns[k], it.2.len() as u64, it.2.len() as u64, it.1)] + listed_from(s, ns, k + 1)
    }
}

proof fn lemma_list_from(sources: Seq<SourceEntry>, image: Seq<u8>, k: int)
    requires
        0 <= k <= sources.len(),
        forall|j: int| 0 <= j < sources.len() ==> clean_item(#[trigger] item_of(sources[j])),
        tar_reads_back(image, log_of(sources)),
    ensures
        list_from(image, k) == Ok::<Seq<(Seq<char>, u64, u64, bool)>, ErrorView>(
            listed_from(sources, stored_names(image, sources.len()), k),
        ),
    decreases sources.len() - k,
{
    let log = log_of(sources);
    assert forall|j: int| 0 <= j < log.len() implies clean_item(#[trigger] log[j]) by {
        assert(log[j] == item_of(sources[j]));
    }
    if k < sources.len() {
        lemma_list_from(sources, image, k + 1);
        assert(log[k] == item_of(sources[k]));
        assert(tar_slot(image, k) == Ok::<bool, Seq<char>>(true));
    } else {
        assert(tar_slot(image, log.len() as int) == Ok::<bool, Seq<char>>(false));
    }
}

/// Listing an archive that `create` built from staged entries with readable
/// names and modes that fit lists them all, in order, with their names as
/// stored, sizes and directory flags.
pub proof fn lemma_list_round_trip(format: Format, sources: Seq<SourceEntry>, bytes: Seq<u8>)
    requires
        is_tar_family(format),
        forall|j: int| 0 <= j < sources.len() ==> clean_item(#[trigger] item_of(sources[j])),
        unwrapped(format, bytes) matches Some(t) && tar_reads_back(t, log_of(sources)),
    ensures
        unwrapped(format, bytes) matches Some(image) && {
            let ns = stored_names(image, sources.len());
            &&& forall|k: int| 0 <= k < sources.len() ==> stored_as(sources[k].name@, #[trigger] ns[k])
            &&& list_from(image, 0) == Ok::<Seq<(Seq<char>, u64, u64, bool)>, ErrorView>(
                listed_from(sources, ns, 0),
            )
        },
{
    let image = unwrapped(format, bytes)->Some_0;
    lemma_list_from(sources, image, 0);
    lemma_stored_names(sources, image);
}

proof fn lemma_check_from(sources: Seq<SourceEntry>, image: Seq<u8>, k: int)
    requires
        0 <= k <= sources.len(),
        forall|j: int| 0 <= j < sources.len() ==> clean_item(#[trigger] item_of(sources[j])),
        tar_reads_back(image, log_of(sources)),
    ensures
        check_from(image, k).1 == Ok::<(), ErrorView>(()),
    decreases sources.len() - k,
{
    let log = log_of(sources);
    assert forall|j: int| 0 <= j < log.len() implies clean_item(#[trigger] log[j]) by {
        assert(log[j] == item_of(sources[j]));
    }
    if k < sources.len() {
        lemma_check_from(sources, image, k + 1);
        assert(log[k] == item_of(sources[k]));
        assert(tar_slot(image, k) == Ok::<bool, Seq<char>>(true));
    } else {
        assert(tar_slot(image, log.len() as int) == Ok::<bool, Seq<char>>(false));
    }
}

/// Checking an archive that `create` built from staged entries with clean
/// names and modes that fit passes.
pub proof fn lemma_check_passes(format: Format, sources: Seq<SourceEntry>, bytes: Seq<u8>)
    requires
        is_tar_family(format),
        forall|j: int| 0 <= j < sources.len() ==> clean_item(#[trigger] item_of(sources[j])),
        unwrapped(format, bytes) matches Some(t) && tar_reads_back(t, log_of(sources)),
    ensures
        unwrapped(format, bytes) matches Some(image) && check_from(image, 0).1 == Ok::<
            (),
            ErrorView,
        >(()),
{
    lemma_check_from(sources, unwrapped(format, bytes)->Some_0, 0);
}

/// The directory made before writing a file on a path that stays inside
/// lies in the destination.
pub(crate) proof fn lemma_parent_dirs_inside(dest: Seq<char>, p: Seq<char>, windows: bool)
    requires
        stays_inside_on(p, windows),
        windows ==> comps_colon_free(p, windows),
    ensures
        steps_inside(parent_dirs(dest, p, windows), dest, windows),
{
    lemma_parent_stays_inside(p, windows);
    if parent_on(p, windows) is Some {
        let q = parent_on(p, windows)->Some_0;
        if q.len() > 0 {
            assert(under(join_path_on(dest, q, windows), dest, windows));
        }
        assert(step_inside(parent_dirs(dest, p, windows)[0], dest, windows));
    }
}

/// The steps for a selected entry whose name does not escape stay in the
/// destination: its directory, its parent directory and the file written.
pub(crate) proof fn lemma_entry_inside(
    dest: Seq<char>,
    enc: Seq<char>,
    windows: bool,
    rep: Seq<Effect>,
    force: bool,
    data: Seq<u8>,
    mode: Option<u32>,
    strict: bool,
)
    requires
        stays_inside_on(enc, windows),
        steps_inside(rep, dest, windows),
    ensures
        ({
            let safe = sanitized(enc, windows);
            let out = join_path_on(dest, safe, windows);
            &&& steps_inside(rep + seq![Effect::MakeDir(out)], dest, windows)
            &&& steps_inside(
                rep + parent_dirs(dest, safe, windows) + guard(out, force),
                dest,
                windows,
            )
            &&& steps_inside(
                rep + parent_dirs(dest, safe, windows) + guard(out, force) + seq![
                    Effect::Write(out, data, mode, strict),
                ],
                dest,
                windows,
            )
        }),
{
    let safe = sanitized(enc, windows);
    lemma_sanitized_stays_inside(enc, windows);
    let out = join_path_on(dest, safe, windows);
    assert(under(out, dest, windows));
    let md = seq![Effect::MakeDir(out)];
    assert(steps_inside(md, dest, windows));
    lemma_steps_inside_concat(rep, md, dest, windows);
    lemma_parent_dirs_inside(dest, safe, windows);
    lemma_steps_inside_concat(rep, parent_dirs(dest, safe, windows), dest, windows);
    let g = guard(out, force);
    assert(steps_inside(g, dest, windows));
    let pre = rep + parent_dirs(dest, safe, windows) + g;
    lemma_steps_inside_concat(rep + parent_dirs(dest, safe, windows), g, dest, windows);
    let w = seq![Effect::Write(out, data, mode, strict)];
    assert(steps_inside(w, dest, windows));
    lemma_steps_inside_concat(pre, w, dest, windows);
}

proof fn lemma_step_inside(
    image: Seq<u8>,
    i: int,
    idx: nat,
    dest: Seq<char>,
    sel: Option<Seq<Seq<char>>>,
    force: bool,
    windows: bool,
)
    ensures
        steps_inside(entry_step(image, i, idx, dest, sel, force, windows).0, dest, windows),
{
    let st = entry_step(image, i, idx, dest, sel, force, windows);
    if tar_slot(image, i) == Ok::<bool, Seq<char>>(true) {
        let h = tar_head(image, i);
        if h.0 is Ok {
            let raw = h.0->Ok_0;
            if selected(sel, raw) && !escapes_on(raw, windows) {
                lemma_not_escaping_stays_inside_on(raw, windows);
                let safe = sanitized(raw, windows);
                let rep = seq![Effect::Report(idx as u64, 0, safe)];
                assert(steps_inside(rep, dest, windows));
                let d = match tar_body(image, i) {
                    Ok(d) => d,
                    Err(_) => Seq::<u8>::empty(),
                };
                let md = if tar_body(image, i) is Ok {
                    h.3
                } else {
                    None
                };
                lemma_entry_inside(dest, raw, windows, rep, force, d, md, false);
            }
        }
    }
}

/// No file or directory that extracting a tar plans to make lies outside the
/// destination: each is on a relative path without a drive, a root or `..`
/// (or is the parent directory of one), on Windows with its names made safe.
pub proof fn lemma_extract_inside(
    image: Seq<u8>,
    i: int,
    idx: nat,
    dest: Seq<char>,
    sel: Option<Seq<Seq<char>>>,
    force: bool,
    windows: bool,
)
    ensures
        steps_inside(extract_from(image, i, idx, dest, sel, force, windows).0, dest, windows),
    decreases image.len() + 1 - i,
{
    if 0 <= i <= image.len() {
        let st = entry_step(image, i, idx, dest, sel, force, windows);
        lemma_step_inside(image, i, idx, dest, sel, force, windows);
        if st.1 is None {
            lemma_extract_inside(image, i + 1, st.2, dest, sel, force, windows);
            lemma_steps_inside_concat(
                st.0,
                extract_from(image, i + 1, st.2, dest, sel, force, windows).0,
                dest,
                windows,
            );
        }
    }
}

/// Restricting an extraction to names that include every name the listing
/// from entry `i` on gives changes nothing.
pub proof fn lemma_select_listed(
    image: Seq<u8>,
    i: int,
    idx: nat,
    dest: Seq<char>,
    names: Seq<Seq<char>>,
    force: bool,
    windows: bool,
)
    requires
        list_from(image, i) matches Ok(es) && forall|j: int|
            0 <= j < es.len() ==> names.contains(#[trigger] es[j].0),
    ensures
        extract_from(image, i, idx, dest, Some(names), force, windows) == extract_from(
            image,
            i,
            idx,
            dest,
            None,
            force,
            windows,
        ),
    decreases image.len() + 1 - i,
{
    if 0 <= i <= image.len() && tar_slot(image, i) == Ok::<bool, Seq<char>>(true) {
        let h = tar_head(image, i);
        let es = list_from(image, i)->Ok_0;
        let p = h.0->Ok_0;
        let rest = list_from(image, i + 1)->Ok_0;
        assert(es[0].0 == p);
        assert(names.contains(es[0].0));
        assert forall|j: int| 0 <= j < rest.len() implies names.contains(#[trigger] rest[j].0) by {
            assert(es[j + 1] == rest[j]);
        }
        let st = entry_step(image, i, idx, dest, Some(names), force, windows);
        assert(st == entry_step(image, i, idx, dest, None, force, windows));
        lemma_select_listed(image, i + 1, st.2, dest, names, force, windows);
    }
}

/// Whether entry `j` of `image` is there and its header and contents read
/// through.
pub open spec fn tar_entry_reads(image: Seq<u8>, j: int) -> bool {
    tar_slot(image, j) == Ok::<bool, Seq<char>>(true) && tar_head(image, j).0 is Ok && tar_body(
        image,
        j,
    ) is Ok
}

/// Whether `e` is how reading entry `j` of `image` fails: the iterator's or
/// the header's error, or `verifying <name>` with the contents' error.
pub open spec fn tar_entry_failure(image: Seq<u8>, j: int, e: ErrorView) -> bool {
    match tar_slot(image, j) {
        Err(m) => e == ErrorView::Io(m),
        Ok(false) => false,
        Ok(true) => match tar_head(image, j).0 {
            Err(m) => e == ErrorView::Io(m),
            Ok(name) => tar_body(image, j) matches Err(m) && e == ErrorView::Failed(
                "verifying "@ + name,
                m,
            ),
        },
    }
}

/// Checking a tar from entry `i` on fails when the entries `i..k` are there
/// and entry `k` is not the end but cannot be read through: with the
/// failure of the first entry from `i` on that cannot.
pub proof fn lemma_check_from_fails(image: Seq<u8>, i: int, k: int)
    requires
        0 <= i <= k <= image.len(),
        forall|j: int| i <= j < k ==> #[trigger] tar_slot(image, j) == Ok::<bool, Seq<char>>(true),
        tar_slot(image, k) != Ok::<bool, Seq<char>>(false),
        !tar_entry_reads(image, k),
    ensures
        check_from(image, i).1 matches Err(e) && exists|j: int|
            i <= j <= k && !tar_entry_reads(image, j) && tar_entry_failure(image, j, e),
    decreases k - i,
{
    if i < k {
        assert(tar_slot(image, i) == Ok::<bool, Seq<char>>(true));
    }
    if tar_entry_reads(image, i) {
        lemma_check_from_fails(image, i + 1, k);
    } else {
        let e = check_from(image, i).1->Err_0;
        assert(tar_entry_failure(image, i, e));
    }
}

/// Checking a tar reads every entry through: when entry `k` is reached (the
/// ones before it are there) and is not the end but cannot be read through,
/// the check fails, with the failure of the first entry that cannot; when
/// the entries before the end all read through, it passes.
pub proof fn lemma_tar_test_reads_every_entry(format: Format, bytes: Seq<u8>, r: CheckOutcome, k: int)
    requires
        checked(format, bytes, r),
        unwrapped(format, bytes) is Some,
    ensures
        ({
            let image = unwrapped(format, bytes)->Some_0;
            &&& 0 <= k <= image.len()
            &&& forall|j: int| 0 <= j < k ==> #[trigger] tar_slot(image, j) == Ok::<bool, Seq<char>>(true)
            &&& tar_slot(image, k) != Ok::<bool, Seq<char>>(false)
            &&& !tar_entry_reads(image, k)
        }) ==> (r.result matches Err(e) && exists|j: int|
            0 <= j <= k && !tar_entry_reads(unwrapped(format, bytes)->Some_0, j) && tar_entry_failure(
                unwrapped(format, bytes)->Some_0,
                j,
                e@,
            )),
        ({
            let image = unwrapped(format, bytes)->Some_0;
            &&& 0 <= k <= image.len()
            &&& forall|j: int| 0 <= j < k ==> #[trigger] tar_entry_reads(image, j)
            &&& tar_slot(image, k) == Ok::<bool, Seq<char>>(false)
        }) ==> r.result is Ok,
{
    let image = unwrapped(format, bytes)->Some_0;
    if 0 <= k <= image.len() && (forall|j: int| 0 <= j < k ==> #[trigger] tar_slot(image, j) == Ok::<bool, Seq<char>>(true))
        && tar_slot(image, k) != Ok::<bool, Seq<char>>(false) && !tar_entry_reads(image, k) {
        lemma_check_from_fails(image, 0, k);
    }
    if 0 <= k <= image.len() && (forall|j: int| 0 <= j < k ==> #[trigger] tar_entry_reads(image, j))
        && tar_slot(image, k) == Ok::<bool, Seq<char>>(false) {
        lemma_check_from_passes(image, 0, k);
    }
}

/// Checking from entry `i` passes when the entries `i..k` read through and
/// `k` is the end.
proof fn lemma_check_from_passes(image: Seq<u8>, i: int, k: int)
    requires
        0 <= i <= k <= image.len(),
        forall|j: int| i <= j < k ==> #[trigger] tar_entry_reads(image, j),
        tar_slot(image, k) == Ok::<bool, Seq<char>>(false),
    ensures
        check_from(image, i).1 == Ok::<(), ErrorView>(()),
    decreases k - i,
{
    if i < k {
        assert(tar_entry_reads(image, i));
        lemma_check_from_passes(image, i + 1, k);
    }
}

} // verus!
