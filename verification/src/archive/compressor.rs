//! Single-file compressors: gzip, bzip2, xz, zstd. Each holds exactly one file.
use vstd::prelude::*;
use crate::archive::format::{is_single_file, Format};
use crate::archive::{
    effects, push_action, push_progress, push_report, reports_view, Action, BuildOutcome,
    CheckOutcome, Effect, EntryInfo, Plan, Progress, SourceEntry, step_inside, steps_inside,
};
use crate::codec::{decode, decode_prefix, decoded, decoding, encode, encoded, magic, produced, Codec};
use crate::archive::format::starts_with;
use crate::error::{ArchiveError, ErrorView};
use crate::paths::{
    components_on, dotdot, file_name_on, file_name_on_exec, has_drive, is_sep, join_path_on,
    join_path_on_exec, lemma_components_shape, lemma_name_stays_inside_on, no_sep,
};
use crate::text::{chars_of, concat_chars, ends_with_lower, ends_with_lower_exec, string_from_vec, take_chars};

verus! {

/// The compressor behind a single-file format.
pub open spec fn codec_of(f: Format) -> Codec {
    match f {
        Format::Bz2 => Codec::Bzip2,
        Format::Xz => Codec::Xz,
        Format::Zst => Codec::Zstd,
        _ => Codec::Gzip,
    }
}

/// The file-name suffix of a single-file format (empty for other formats).
pub open spec fn suffix_of(f: Format) -> Seq<char> {
    match f {
        Format::Gz => ".gz"@,
        Format::Bz2 => ".bz2"@,
        Format::Xz => ".xz"@,
        Format::Zst => ".zst"@,
        _ => ""@,
    }
}

/// The decompressed file's name: the archive's file name (under the
/// platform's path rules) without the compressor's suffix (matched
/// case-insensitively), or with `.out` appended when it does not end with it.
pub open spec fn inner_name_on(archive: Seq<char>, f: Format, windows: bool) -> Seq<char> {
    let file = match file_name_on(archive, windows) {
        Some(n) => n,
        None => seq![],
    };
    let suf = suffix_of(f);
    if suf.len() > 0 && ends_with_lower(file, suf) {
        file.take(file.len() - suf.len())
    } else {
        file + ".out"@
    }
}

/// The uncompressed size a gzip file records in its last four bytes
/// (little-endian), or 0 when it is shorter than that.
pub open spec fn gzip_isize(b: Seq<u8>) -> u64 {
    if b.len() < 4 {
        0
    } else {
        let n = b.len();
        (b[n - 4] as int + 256 * b[n - 3] as int + 65536 * b[n - 2] as int + 16777216 * b[n
            - 1] as int) as u64
    }
}

fn codec_for(f: Format) -> (c: Codec)
    ensures
        c == codec_of(f),
{
    match f {
        Format::Bz2 => Codec::Bzip2,
        Format::Xz => Codec::Xz,
        Format::Zst => Codec::Zstd,
        _ => Codec::Gzip,
    }
}

fn suffix(f: Format) -> (r: &'static str)
    ensures
        r@ == suffix_of(f),
{
    match f {
        Format::Gz => ".gz",
        Format::Bz2 => ".bz2",
        Format::Xz => ".xz",
        Format::Zst => ".zst",
        _ => "",
    }
}

/// The decompressed file name = archive file name minus the compressor
/// suffix; `windows` says whether the archive path is read as on Windows.
pub fn inner_name_of(archive: &str, f: Format, windows: bool) -> (r: String)
    ensures
        r@ == inner_name_on(archive@, f, windows),
{
    let p = chars_of(archive);
    let file = match file_name_on_exec(&p, windows) {
        Some(n) => n,
        None => Vec::new(),
    };
    let suf = chars_of(suffix(f));
    if suf.len() > 0 && ends_with_lower_exec(&file, &suf) {
        string_from_vec(&take_chars(&file, file.len() - suf.len()))
    } else {
        string_from_vec(&concat_chars(&file, &chars_of(".out")))
    }
}

/// What compressing the staged file `source` gives.
pub open spec fn created(format: Format, source: SourceEntry, r: BuildOutcome) -> bool {
    &&& r.result is Ok
    &&& match r.result {
        Ok(v) => {
            &&& v@ == encoded(codec_of(format), source.data@)
            &&& decoded(codec_of(format), v@) == Some(source.data@)
            &&& starts_with(v@, magic(codec_of(format)))
            &&& reports_view(r.reports@) =~= seq![
                (0u64, 1u64, source.path@),
                (1u64, 1u64, "done"@),
            ]
        },
        Err(e) => {
            &&& e is Io
            &&& reports_view(r.reports@) =~= seq![(0u64, 1u64, source.path@)]
        },
    }
}

/// Compresses the one staged file. Reports the input's path, then `done`.
pub fn create(format: Format, source: &SourceEntry) -> (r: BuildOutcome)
    requires
        is_single_file(format),
    ensures
        created(format, *source, r),
{
    let mut reports: Vec<Progress> = Vec::new();
    push_progress(&mut reports, 0, 1, source.path.clone());
    match encode(codec_for(format), source.data.as_slice()) {
        Ok(v) => {
            push_progress(&mut reports, 1, 1, "done".to_string());
            BuildOutcome { reports, result: Ok(v) }
        },
        Err(m) => BuildOutcome { reports, result: Err(ArchiveError::Io { detail: m }) },
    }
}

/// What listing the compressed file `bytes` named `archive` gives.
pub open spec fn listed(
    archive: Seq<char>,
    format: Format,
    bytes: Seq<u8>,
    r: Seq<EntryInfo>,
    windows: bool,
) -> bool {
    &&& r.len() == 1
    &&& r[0]@ == (
        inner_name_on(archive, format, windows),
        if format == Format::Gz {
            gzip_isize(bytes)
        } else {
            0u64
        },
        bytes.len() as u64,
        false,
    )
}

/// The one entry of a compressed file: its inner name, the size gzip records
/// (0 for the other compressors), and the file's own size.
pub fn list(archive: &str, format: Format, bytes: &[u8], windows: bool) -> (r: Vec<EntryInfo>)
    ensures
        listed(archive@, format, bytes@, r@, windows),
{
    let n = bytes.len();
    let size: u64 = if format == Format::Gz && n >= 4 {
        bytes[n - 4] as u64 + 256 * (bytes[n - 3] as u64) + 65536 * (bytes[n - 2] as u64)
            + 16777216 * (bytes[n - 1] as u64)
    } else {
        0
    };
    let mut out: Vec<EntryInfo> = Vec::new();
    out.push(
        EntryInfo { name: inner_name_of(archive, format, windows), size, compressed: n as u64, is_dir: false },
    );
    out
}

/// The target of extracting a compressed file into `dest`.
pub open spec fn target(archive: Seq<char>, f: Format, dest: Seq<char>, windows: bool) -> Seq<char> {
    join_path_on(dest, inner_name_on(archive, f, windows), windows)
}

/// The steps of extracting a compressed file whose decompression gave `d`:
/// what it read out is written under the inner name, and `done` follows when
/// it reached the end without an error.
pub open spec fn extract_effects(
    archive: Seq<char>,
    f: Format,
    dest: Seq<char>,
    force: bool,
    d: (Seq<u8>, Option<Seq<char>>),
    windows: bool,
) -> Seq<Effect> {
    let out = target(archive, f, dest, windows);
    let head = seq![Effect::MakeDir(dest)] + (if force {
        Seq::<Effect>::empty()
    } else {
        seq![Effect::EnsureAbsent(out)]
    }) + seq![Effect::Report(0, 1, out), Effect::Write(out, d.0, None, false)];
    if d.1 is None {
        head + seq![Effect::Report(1, 1, "done"@)]
    } else {
        head
    }
}

/// What planning the extraction of the compressed file `bytes` named `archive` gives.
pub open spec fn planned(
    archive: Seq<char>,
    format: Format,
    bytes: Seq<u8>,
    dest: Seq<char>,
    force: bool,
    windows: bool,
    r: Plan,
) -> bool {
    &&& effects(r.actions@) =~= extract_effects(
        archive,
        format,
        dest,
        force,
        decoding(codec_of(format), bytes),
        windows,
    )
    &&& match decoding(codec_of(format), bytes).1 {
        None => r.outcome is Ok,
        Some(m) => r.outcome matches Err(e) && e@ == ErrorView::Io(m),
    }
}

/// Decompresses into `dest`, under the inner name.
pub fn extract(
    archive: &str,
    format: Format,
    bytes: &[u8],
    dest: &str,
    force: bool,
    windows: bool,
) -> (r: Plan)
    requires
        is_single_file(format),
    ensures
        planned(archive@, format, bytes@, dest@, force, windows, r),
{
    let mut acts: Vec<Action> = Vec::new();
    let name = inner_name_of(archive, format, windows);
    let out = string_from_vec(
        &join_path_on_exec(&chars_of(dest), &chars_of(name.as_str()), windows),
    );
    push_action(&mut acts, Action::MakeDir(dest.to_string()));
    if !force {
        push_action(&mut acts, Action::EnsureAbsent(out.clone()));
    }
    push_report(&mut acts, 0, 1, out.clone());
    let (data, err) = decode_prefix(codec_for(format), bytes);
    push_action(&mut acts, Action::Write { path: out, data, mode: None, strict: false });
    match err {
        None => {
            push_report(&mut acts, 1, 1, "done".to_string());
            Plan { actions: acts, outcome: Ok(()) }
        },
        Some(m) => Plan { actions: acts, outcome: Err(ArchiveError::Io { detail: m }) },
    }
}

/// What checking the compressed file `bytes` named `archive` gives.
pub open spec fn checked(
    archive: Seq<char>,
    format: Format,
    bytes: Seq<u8>,
    r: CheckOutcome,
    windows: bool,
) -> bool {
    &&& r.result is Ok <==> decoded(codec_of(format), bytes) is Some
    &&& r.result matches Err(e) ==> decoding(codec_of(format), bytes).1 matches Some(m) && e@
        == ErrorView::Failed("verifying "@ + archive, m)
    &&& reports_view(r.reports@) =~= if r.result is Ok {
        seq![(0u64, 1u64, inner_name_on(archive, format, windows)), (1u64, 1u64, "ok"@)]
    } else {
        seq![(0u64, 1u64, inner_name_on(archive, format, windows))]
    }
}

/// Checks that the file decompresses. Reports the inner name, then `ok`.
pub fn test(archive: &str, format: Format, bytes: &[u8], windows: bool) -> (r: CheckOutcome)
    requires
        is_single_file(format),
    ensures
        checked(archive@, format, bytes@, r, windows),
{
    let mut reports: Vec<Progress> = Vec::new();
    push_progress(&mut reports, 0, 1, inner_name_of(archive, format, windows));
    match decode(codec_for(format), bytes) {
        Ok(_) => {
            push_progress(&mut reports, 1, 1, "ok".to_string());
            CheckOutcome { reports, result: Ok(()) }
        },
        Err(m) => {
            let context = crate::archive::tar_backend::with_prefix("verifying ", archive);
            CheckOutcome { reports, result: Err(ArchiveError::Failed { context, detail: m }) }
        },
    }
}

/// Extracting what `create` built from a file gives the file's bytes back:
/// under any archive name and into any directory, the plan writes them to
/// the inner name and the extraction succeeds; checking it passes too.
pub proof fn lemma_round_trip(
    format: Format,
    data: Seq<u8>,
    built: Seq<u8>,
    archive: Seq<char>,
    dest: Seq<char>,
    force: bool,
    windows: bool,
)
    requires
        is_single_file(format),
        built == encoded(codec_of(format), data),
        decoded(codec_of(format), built) == Some(data),
    ensures
        extract_effects(archive, format, dest, force, decoding(codec_of(format), built), windows).last()
            == Effect::Report(1, 1, "done"@),
        extract_effects(archive, format, dest, force, decoding(codec_of(format), built), windows).contains(
            Effect::Write(target(archive, format, dest, windows), data, None, false),
        ),
        decoding(codec_of(format), built) == produced(data),
{
    let e = extract_effects(archive, format, dest, force, decoding(codec_of(format), built), windows);
    let k = e.len() - 2;
    assert(e[k] == Effect::Write(target(archive, format, dest, windows), data, None, false));
}

proof fn lemma_no_sep_take(s: Seq<char>, k: int, windows: bool)
    requires
        0 <= k <= s.len(),
        no_sep(s, windows),
    ensures
        no_sep(s.take(k), windows),
{
    assert forall|j: int| 0 <= j < s.take(k).len() implies !is_sep(#[trigger] s.take(k)[j], windows) by {
        assert(s.take(k)[j] == s[j]);
    }
}

/// The inner name of a compressed file holds no separator.
pub proof fn lemma_inner_name_no_sep(archive: Seq<char>, f: Format, windows: bool)
    ensures
        no_sep(inner_name_on(archive, f, windows), windows),
{
    lemma_components_shape(archive, windows);
    let file = match file_name_on(archive, windows) {
        Some(n) => n,
        None => seq![],
    };
    if file_name_on(archive, windows) is Some {
        let c = components_on(archive, windows);
        assert(file == c[c.len() - 1]);
        assert(no_sep(c[c.len() - 1], windows));
    }
    let suf = suffix_of(f);
    if suf.len() > 0 && ends_with_lower(file, suf) {
        lemma_no_sep_take(file, file.len() - suf.len(), windows);
    } else {
        reveal_strlit(".out");
        let t = file + ".out"@;
        assert forall|j: int| 0 <= j < t.len() implies !is_sep(#[trigger] t[j], windows) by {
            if j < file.len() {
                assert(t[j] == file[j]);
            } else {
                assert(t[j] == ".out"@[j - file.len()]);
            }
        }
    }
}

/// Extracting a compressed file writes it inside the destination, unless
/// its inner name is `..` or begins with a drive prefix.
pub proof fn lemma_extract_inside(
    archive: Seq<char>,
    f: Format,
    dest: Seq<char>,
    force: bool,
    d: (Seq<u8>, Option<Seq<char>>),
    windows: bool,
)
    requires
        inner_name_on(archive, f, windows) != dotdot(),
        !has_drive(inner_name_on(archive, f, windows), windows),
    ensures
        steps_inside(extract_effects(archive, f, dest, force, d, windows), dest, windows),
{
    lemma_inner_name_no_sep(archive, f, windows);
    lemma_name_stays_inside_on(inner_name_on(archive, f, windows), windows);
    let es = extract_effects(archive, f, dest, force, d, windows);
    assert forall|k: int| 0 <= k < es.len() implies step_inside(#[trigger] es[k], dest, windows) by {
        if es[k] is Write {
            assert(es[k]->Write_0 == target(archive, f, dest, windows));
        }
    }
}

/// The name a compressed file is extracted to: its file name without the
/// compressor's extension (`.gz`, `.bz2`, `.xz`, `.zst`, matched without
/// case), or with `.out` appended when it lacks that extension.
pub proof fn lemma_inner_names(archive: Seq<char>, windows: bool)
    ensures
        ({
            let n = match file_name_on(archive, windows) {
                Some(x) => x,
                None => Seq::<char>::empty(),
            };
            &&& ends_with_lower(n, ".gz"@) ==> inner_name_on(archive, Format::Gz, windows) == n.take(
                n.len() - 3,
            )
            &&& !ends_with_lower(n, ".gz"@) ==> inner_name_on(archive, Format::Gz, windows) == n
                + ".out"@
            &&& ends_with_lower(n, ".bz2"@) ==> inner_name_on(archive, Format::Bz2, windows) == n.take(
                n.len() - 4,
            )
            &&& !ends_with_lower(n, ".bz2"@) ==> inner_name_on(archive, Format::Bz2, windows) == n
                + ".out"@
            &&& ends_with_lower(n, ".xz"@) ==> inner_name_on(archive, Format::Xz, windows) == n.take(
                n.len() - 3,
            )
            &&& !ends_with_lower(n, ".xz"@) ==> inner_name_on(archive, Format::Xz, windows) == n
                + ".out"@
            &&& ends_with_lower(n, ".zst"@) ==> inner_name_on(archive, Format::Zst, windows) == n.take(
                n.len() - 4,
            )
            &&& !ends_with_lower(n, ".zst"@) ==> inner_name_on(archive, Format::Zst, windows) == n
                + ".out"@
        }),
{
    reveal_strlit(".gz");
    reveal_strlit(".bz2");
    reveal_strlit(".xz");
    reveal_strlit(".zst");
}

/// Checking a compressed file passes exactly when it decompresses to the
/// end; it fails with `verifying <archive>` and the decompressor's message
/// otherwise, having reported only the inner name.
pub proof fn lemma_check_decompresses(
    archive: Seq<char>,
    format: Format,
    bytes: Seq<u8>,
    r: CheckOutcome,
    windows: bool,
)
    requires
        checked(archive, format, bytes, r, windows),
    ensures
        r.result is Ok <==> decoding(codec_of(format), bytes).1 is None,
        decoding(codec_of(format), bytes).1 matches Some(m) ==> (r.result matches Err(e) && e@
            == ErrorView::Failed("verifying "@ + archive, m)),
        r.reports@.len() >= 1 && r.reports@[0]@ == (0u64, 1u64, inner_name_on(archive, format, windows)),
{
    assert(reports_view(r.reports@)[0] == r.reports@[0]@);
}

} // verus!
