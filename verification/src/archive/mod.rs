//! Multi-format archive API: detects the format and dispatches to a backend.
//!
//! The library works on bytes. Building an archive takes the staged entries
//! (names, contents and metadata, read by the caller) and gives back the
//! archive's bytes; listing and checking take an archive's bytes; extracting
//! gives back a plan: the file-system steps, in the order they are to be
//! taken, followed by the outcome once they have all been taken.
use vstd::prelude::*;
use crate::archive::format::{
    bzip2_magic, detect_for_read, detect_for_write, gzip_magic, is_single_file, is_tar_family,
    rar_magic, read_format, sevenz_magic, starts_with, write_format, xz_magic, zip_empty_magic,
    zip_local_magic, zstd_magic, Format,
};
use crate::cli::Compression;
use crate::codec::decoding;
use crate::paths::{dotdot, has_drive, join_path_on, parent_on, parent_on_exec, stays_inside_on};
use crate::error::{ArchiveError, ErrorView, Operation};
use crate::text::{chars_eq, chars_of, lemma_ascii_prefix, lemma_utf8_front, string_from_vec, zeros};
use vstd::utf8::encode_utf8;

pub mod compressor;
pub mod format;
pub mod names;
pub mod tar_backend;
pub mod zip_backend;

verus! {

/// Progress update emitted by long-running operations.
#[derive(Debug)]
pub struct Progress {
    pub current: u64,
    pub total: u64,
    pub message: String,
}

impl View for Progress {
    type V = (u64, u64, Seq<char>);

    open spec fn view(&self) -> (u64, u64, Seq<char>) {
        (self.current, self.total, self.message@)
    }
}

/// Metadata about one entry in an archive (used by `list`).
#[derive(Debug)]
pub struct EntryInfo {
    pub name: String,
    pub size: u64,
    pub compressed: u64,
    pub is_dir: bool,
}

impl View for EntryInfo {
    type V = (Seq<char>, u64, u64, bool);

    open spec fn view(&self) -> (Seq<char>, u64, u64, bool) {
        (self.name@, self.size, self.compressed, self.is_dir)
    }
}

/// A file or directory staged for archiving: the path it was read from, its
/// archive name, and what the archive records of it. `mode` is the Unix mode
/// when the platform has one; `data` is empty for a directory.
#[derive(Debug)]
pub struct SourceEntry {
    pub path: String,
    pub name: String,
    pub is_dir: bool,
    pub data: Vec<u8>,
    pub mode: Option<u32>,
    pub mtime: u64,
    pub uid: u64,
    pub gid: u64,
}

/// One file-system step of an extraction.
#[derive(Debug)]
pub enum Action {
    /// Report progress.
    Report(Progress),
    /// Create a directory and its missing parents.
    MakeDir(String),
    /// Fail with `AlreadyExists` if something is already at this path.
    EnsureAbsent(String),
    /// Write a file. With a mode, set the file's permissions to it
    /// afterwards; when `strict`, a failure to do so fails the extraction,
    /// otherwise it is ignored.
    Write { path: String, data: Vec<u8>, mode: Option<u32>, strict: bool },
}

/// A step, with its texts and bytes as sequences.
pub enum Effect {
    Report(u64, u64, Seq<char>),
    MakeDir(Seq<char>),
    EnsureAbsent(Seq<char>),
    Write(Seq<char>, Seq<u8>, Option<u32>, bool),
}

impl View for Action {
    type V = Effect;

    open spec fn view(&self) -> Effect {
        match self {
            Action::Report(p) => Effect::Report(p.current, p.total, p.message@),
            Action::MakeDir(p) => Effect::MakeDir(p@),
            Action::EnsureAbsent(p) => Effect::EnsureAbsent(p@),
            Action::Write { path, data, mode, strict } => Effect::Write(
                path@,
                data@,
                *mode,
                *strict,
            ),
        }
    }
}

/// The steps of an extraction, in order, and how it ends once they have all
/// been taken.
#[derive(Debug)]
pub struct Plan {
    pub actions: Vec<Action>,
    pub outcome: Result<(), ArchiveError>,
}

/// The progress reports of building an archive, and its bytes.
#[derive(Debug)]
pub struct BuildOutcome {
    pub reports: Vec<Progress>,
    pub result: Result<Vec<u8>, ArchiveError>,
}

/// The progress reports of an integrity check, and how it ends.
#[derive(Debug)]
pub struct CheckOutcome {
    pub reports: Vec<Progress>,
    pub result: Result<(), ArchiveError>,
}

/// The steps of a plan as effects.
pub open spec fn effects(a: Seq<Action>) -> Seq<Effect> {
    a.map_values(|x: Action| x@)
}

/// Progress reports as triples.
pub open spec fn reports_view(r: Seq<Progress>) -> Seq<(u64, u64, Seq<char>)> {
    r.map_values(|p: Progress| p@)
}

/// Entries as tuples.
pub open spec fn entries_view(r: Seq<EntryInfo>) -> Seq<(Seq<char>, u64, u64, bool)> {
    r.map_values(|e: EntryInfo| e@)
}

/// An outcome with its error as a view.
pub open spec fn outcome_view(r: Result<(), ArchiveError>) -> Result<(), ErrorView> {
    match r {
        Ok(()) => Ok(()),
        Err(e) => Err(e@),
    }
}

/// The names an extraction is restricted to, as character sequences; none
/// when every entry is extracted.
pub open spec fn selection(sel: Option<&Vec<String>>) -> Option<Seq<Seq<char>>> {
    match sel {
        Some(v) => Some(v@.map_values(|s: String| s@)),
        None => None,
    }
}

/// Whether an entry named `name` is extracted under the restriction `sel`.
pub open spec fn selected(sel: Option<Seq<Seq<char>>>, name: Seq<char>) -> bool {
    match sel {
        Some(s) => s.contains(name),
        None => true,
    }
}

/// Whether an entry named `name` is extracted under the restriction `sel`.
pub fn is_selected(sel: Option<&Vec<String>>, name: &Vec<char>) -> (r: bool)
    ensures
        r == selected(selection(sel), name@),
{
    match sel {
        None => true,
        Some(v) => {
            let ghost names = selection(sel).unwrap();
            let n = v.len();
            let mut i: usize = 0;
            while i < n
                invariant
                    n == v@.len(),
                    names == selection(sel).unwrap(),
                    sel == Some(v),
                    i <= n,
                    forall|k: int| 0 <= k < i ==> names[k] != name@,
                decreases n - i,
            {
                if chars_eq(&chars_of(v[i].as_str()), name) {
                    assert(names[i as int] == name@);
                    assert(names.contains(name@));
                    return true;
                }
                i = i + 1;
            }
            assert(!names.contains(name@));
            false
        },
    }
}

/// Whether `t` is `dest` joined with a relative path that stays inside it,
/// under the platform's path rules.
pub open spec fn under(t: Seq<char>, dest: Seq<char>, windows: bool) -> bool {
    exists|p: Seq<char>| stays_inside_on(p, windows) && t == join_path_on(dest, p, windows)
}

/// Whether the step `e` stays in `dest`: a file it writes lies under `dest`,
/// a directory it creates is `dest` or lies under it.
pub open spec fn step_inside(e: Effect, dest: Seq<char>, windows: bool) -> bool {
    match e {
        Effect::Write(t, _, _, _) => under(t, dest, windows),
        Effect::MakeDir(t) => t == dest || under(t, dest, windows),
        _ => true,
    }
}

/// Whether every file and directory the steps `es` write lies in `dest`.
pub open spec fn steps_inside(es: Seq<Effect>, dest: Seq<char>, windows: bool) -> bool {
    forall|k: int| 0 <= k < es.len() ==> step_inside(#[trigger] es[k], dest, windows)
}

/// Steps that each write inside, put together, write inside.
pub proof fn lemma_steps_inside_concat(
    a: Seq<Effect>,
    b: Seq<Effect>,
    dest: Seq<char>,
    windows: bool,
)
    requires
        steps_inside(a, dest, windows),
        steps_inside(b, dest, windows),
    ensures
        steps_inside(a + b, dest, windows),
{
    assert forall|k: int| 0 <= k < (a + b).len() implies step_inside(
        #[trigger] (a + b)[k],
        dest,
        windows,
    ) by {
        if k < a.len() {
            assert((a + b)[k] == a[k]);
        } else {
            assert((a + b)[k] == b[k - a.len()]);
        }
    }
}

/// Appends a progress report to a plan.
pub fn push_report(acts: &mut Vec<Action>, current: u64, total: u64, message: String)
    ensures
        effects(final(acts)@) == effects(old(acts)@).push(Effect::Report(current, total, message@)),
{
    acts.push(Action::Report(Progress { current, total, message }));
    assert(effects(acts@) =~= effects(old(acts)@).push(Effect::Report(current, total, message@)));
}

/// Appends a step to a plan.
pub fn push_action(acts: &mut Vec<Action>, a: Action)
    ensures
        effects(final(acts)@) == effects(old(acts)@).push(a@),
{
    let ghost v = a@;
    acts.push(a);
    assert(effects(acts@) =~= effects(old(acts)@).push(v));
}

/// Appends a progress report to a list of reports.
pub fn push_progress(reps: &mut Vec<Progress>, current: u64, total: u64, message: String)
    ensures
        reports_view(final(reps)@) == reports_view(old(reps)@).push((current, total, message@)),
{
    reps.push(Progress { current, total, message });
    assert(reports_view(reps@) =~= reports_view(old(reps)@).push((current, total, message@)));
}

/// What building the archive `output` from `count` inputs (the first a
/// directory or not) decides before anything is read: the format its
/// extension names, that a single-file compressor gets one file, that the
/// format can be written, and that the output may be written.
pub open spec fn create_check(
    output: Seq<char>,
    count: nat,
    first_is_dir: bool,
    force: bool,
    exists: bool,
) -> Result<Format, ErrorView> {
    match write_format(output) {
        None => Err(ErrorView::UnknownOutputFormat(output)),
        Some(f) => if is_single_file(f) && (count != 1 || first_is_dir) {
            Err(ErrorView::SingleFileOnly(f))
        } else if f == Format::SevenZ || f == Format::Rar {
            Err(ErrorView::Unsupported(Operation::Create, f))
        } else if exists && !force {
            Err(ErrorView::AlreadyExists(output))
        } else {
            Ok(f)
        },
    }
}

/// Decides whether the archive `output` can be built from `input_count`
/// inputs, the first of which is a directory or not, and in which format.
pub fn check_create(
    output: &str,
    input_count: usize,
    first_input_is_dir: bool,
    force: bool,
    output_exists: bool,
) -> (r: Result<Format, ArchiveError>)
    ensures
        match create_check(output@, input_count as nat, first_input_is_dir, force, output_exists) {
            Ok(f) => r == Ok::<Format, ArchiveError>(f),
            Err(ev) => r matches Err(e) && e@ == ev,
        },
{
    let f = detect_for_write(output)?;
    if f.is_single_file() && (input_count != 1 || first_input_is_dir) {
        return Err(ArchiveError::SingleFileOnly { format: f });
    }
    if f == Format::SevenZ || f == Format::Rar {
        return Err(ArchiveError::Unsupported { operation: Operation::Create, format: f });
    }
    if output_exists && !force {
        return Err(ArchiveError::AlreadyExists { path: output.to_string() });
    }
    Ok(f)
}

/// The directory to make before the archive `output` is written: its parent,
/// when that is not empty.
pub open spec fn output_dir_of(output: Seq<char>, windows: bool) -> Option<Seq<char>> {
    match parent_on(output, windows) {
        Some(p) => if p.len() > 0 {
            Some(p)
        } else {
            None
        },
        None => None,
    }
}

/// The directory to make before the archive `output` is written (missing
/// directories on the way to it are made too); none when `output` has no
/// parent to make. `windows` says whether paths are read as on Windows.
pub fn output_dir(output: &str, windows: bool) -> (r: Option<String>)
    ensures
        match r {
            Some(d) => output_dir_of(output@, windows) == Some(d@),
            None => output_dir_of(output@, windows) is None,
        },
{
    match parent_on_exec(&chars_of(output), windows) {
        Some(p) => if p.len() > 0 {
            Some(string_from_vec(&p))
        } else {
            None
        },
        None => None,
    }
}

/// Whether the first staged entry is a directory.
pub open spec fn first_is_dir(sources: Seq<SourceEntry>) -> bool {
    sources.len() > 0 && sources[0].is_dir
}

/// What building the archive `output` from `sources` gives: the refusal
/// `create_check` decides on, or what the format's backend builds.
pub open spec fn creation(
    output: Seq<char>,
    sources: Seq<SourceEntry>,
    compression: Compression,
    force: bool,
    output_exists: bool,
    r: BuildOutcome,
) -> bool {
    match create_check(output, sources.len(), first_is_dir(sources), force, output_exists) {
        Err(ev) => r.reports@.len() == 0 && (r.result matches Err(e) && e@ == ev),
        Ok(f) => if f == Format::Zip {
            zip_backend::created(sources, compression, r)
        } else if is_tar_family(f) {
            tar_backend::created(f, sources, r)
        } else {
            sources.len() == 1 && compressor::created(f, sources[0], r)
        },
    }
}

/// Builds the archive `output` from the staged entries: its format comes from
/// its extension; zip entries are compressed with `compression`, the other
/// formats use the compression their extension implies. `output_exists`
/// tells whether something is already at `output`.
pub fn create(
    output: &str,
    sources: &[SourceEntry],
    compression: Compression,
    force: bool,
    output_exists: bool,
) -> (r: BuildOutcome)
    requires
        write_format(output@) == Some(Format::Zip) && (force || !output_exists) ==> forall|k: int|
            0 <= k < sources@.len() ==> zip_backend::zip_fits(
                #[trigger] zip_backend::zip_item_of(sources@[k], compression),
            ),
    ensures
        creation(output@, sources@, compression, force, output_exists, r),
{
    let first_dir = sources.len() > 0 && sources[0].is_dir;
    let f = match check_create(output, sources.len(), first_dir, force, output_exists) {
        Ok(f) => f,
        Err(e) => {
            return BuildOutcome { reports: Vec::new(), result: Err(e) };
        },
    };
    if f == Format::Zip {
        zip_backend::create(sources, compression)
    } else if f.is_tar() {
        tar_backend::create(f, sources)
    } else {
        compressor::create(f, &sources[0])
    }
}

/// What listing the archive `archive`, whose contents are `bytes`, gives.
pub open spec fn listing(
    archive: Seq<char>,
    bytes: Seq<u8>,
    r: Result<Vec<EntryInfo>, ArchiveError>,
    windows: bool,
) -> bool {
    match read_format(archive, bytes) {
        None => r matches Err(e) && e@ == ErrorView::UnrecognizedFormat(archive),
        Some(f) => if f == Format::Zip {
            zip_backend::listed(archive, bytes, r)
        } else if is_tar_family(f) {
            tar_backend::listed(f, bytes, r)
        } else if is_single_file(f) {
            r matches Ok(v) && compressor::listed(archive, f, bytes, v@, windows)
        } else {
            r matches Err(e) && e@ == ErrorView::Unsupported(Operation::List, f)
        },
    }
}

/// Lists the entries of the archive `archive`, whose contents are `bytes`;
/// `windows` says whether the archive path is read as on Windows.
pub fn list(archive: &str, bytes: &[u8], windows: bool) -> (r: Result<Vec<EntryInfo>, ArchiveError>)
    ensures
        listing(archive@, bytes@, r, windows),
{
    let f = detect_for_read(archive, bytes)?;
    if f == Format::Zip {
        zip_backend::list(archive, bytes)
    } else if f.is_tar() {
        tar_backend::list(f, bytes)
    } else if f.is_single_file() {
        Ok(compressor::list(archive, f, bytes, windows))
    } else {
        Err(ArchiveError::Unsupported { operation: Operation::List, format: f })
    }
}

/// What planning the extraction of the archive `archive` (contents `bytes`)
/// into `dest` gives, restricted to `sel` for containers.
pub open spec fn extraction(
    archive: Seq<char>,
    bytes: Seq<u8>,
    dest: Seq<char>,
    sel: Option<Seq<Seq<char>>>,
    force: bool,
    windows: bool,
    r: Plan,
) -> bool {
    match read_format(archive, bytes) {
        None => r.actions@.len() == 0 && (r.outcome matches Err(e) && e@ == ErrorView::UnrecognizedFormat(
            archive,
        )),
        Some(f) => if f == Format::Zip {
            zip_backend::planned(archive, bytes, dest, sel, force, windows, r)
        } else if is_tar_family(f) {
            tar_backend::planned(f, bytes, dest, sel, force, windows, r)
        } else if is_single_file(f) {
            compressor::planned(archive, f, bytes, dest, force, windows, r)
        } else {
            r.actions@.len() == 0 && (r.outcome matches Err(e) && e@ == ErrorView::Unsupported(
                Operation::Extract,
                f,
            ))
        },
    }
}

fn extract_with(
    archive: &str,
    bytes: &[u8],
    dest: &str,
    sel: Option<&Vec<String>>,
    force: bool,
    windows: bool,
) -> (r: Plan)
    ensures
        extraction(archive@, bytes@, dest@, selection(sel), force, windows, r),
{
    let f = match detect_for_read(archive, bytes) {
        Ok(f) => f,
        Err(e) => {
            return Plan { actions: Vec::new(), outcome: Err(e) };
        },
    };
    if f == Format::Zip {
        zip_backend::extract(archive, bytes, dest, sel, force, windows)
    } else if f.is_tar() {
        tar_backend::extract(f, bytes, dest, sel, force, windows)
    } else if f.is_single_file() {
        compressor::extract(archive, f, bytes, dest, force, windows)
    } else {
        Plan {
            actions: Vec::new(),
            outcome: Err(ArchiveError::Unsupported { operation: Operation::Extract, format: f }),
        }
    }
}

/// Plans extracting every entry of the archive `archive`, whose contents are
/// `bytes`, into `dest`. With `force`, existing files are overwritten; with
/// `windows`, entry names are made legal Windows file names.
pub fn extract(archive: &str, bytes: &[u8], dest: &str, force: bool, windows: bool) -> (r: Plan)
    ensures
        extraction(archive@, bytes@, dest@, None, force, windows, r),
{
    extract_with(archive, bytes, dest, None, force, windows)
}

/// Plans extracting the entries of the archive `archive` whose names are in
/// `names` (a single-file archive is extracted whole).
pub fn extract_selected(
    archive: &str,
    bytes: &[u8],
    dest: &str,
    names: &Vec<String>,
    force: bool,
    windows: bool,
) -> (r: Plan)
    ensures
        extraction(archive@, bytes@, dest@, selection(Some(names)), force, windows, r),
{
    extract_with(archive, bytes, dest, Some(names), force, windows)
}

/// Checks the archive `archive`, whose contents are `bytes`, by reading
/// every entry through; `windows` says whether the archive path is read as
/// on Windows.
pub fn test(archive: &str, bytes: &[u8], windows: bool) -> (r: CheckOutcome)
    ensures
        match read_format(archive@, bytes@) {
            None => r.reports@.len() == 0 && (r.result matches Err(e) && e@ == ErrorView::UnrecognizedFormat(
                archive@,
            )),
            Some(f) => if f == Format::Zip {
                zip_backend::checked(archive@, bytes@, r)
            } else if is_tar_family(f) {
                tar_backend::checked(f, bytes@, r)
            } else if is_single_file(f) {
                compressor::checked(archive@, f, bytes@, r, windows)
            } else {
                r.reports@.len() == 0 && (r.result matches Err(e) && e@ == ErrorView::Unsupported(
                    Operation::Test,
                    f,
                ))
            },
        },
{
    let f = match detect_for_read(archive, bytes) {
        Ok(f) => f,
        Err(e) => {
            return CheckOutcome { reports: Vec::new(), result: Err(e) };
        },
    };
    if f == Format::Zip {
        zip_backend::test(archive, bytes)
    } else if f.is_tar() {
        tar_backend::test(f, bytes)
    } else if f.is_single_file() {
        compressor::test(archive, f, bytes, windows)
    } else {
        CheckOutcome {
            reports: Vec::new(),
            result: Err(ArchiveError::Unsupported { operation: Operation::Test, format: f }),
        }
    }
}

/// Staged entries that read back as they were written in format `f`: for
/// a zip, names clean on Unix that do not end with a backslash; for a tar,
/// readable names and modes that fit the header.
pub open spec fn clean_for(f: Format, sources: Seq<SourceEntry>, compression: Compression) -> bool {
    if f == Format::Zip {
        forall|j: int|
            0 <= j < sources.len() ==> zip_backend::zip_clean(
                #[trigger] zip_backend::zip_item_of(sources[j], compression),
            )
    } else if is_tar_family(f) {
        forall|j: int|
            0 <= j < sources.len() ==> tar_backend::clean_item(
                #[trigger] tar_backend::item_of(sources[j]),
            )
    } else {
        true
    }
}

/// What extracting into `dest` restores of the staged entries archived as
/// `output` in format `f`: every entry, in order, and success.
pub open spec fn restores(
    f: Format,
    output: Seq<char>,
    sources: Seq<SourceEntry>,
    compression: Compression,
    dest: Seq<char>,
    force: bool,
    p: Plan,
) -> bool {
    &&& p.outcome is Ok
    &&& if f == Format::Zip {
        effects(p.actions@) == seq![Effect::MakeDir(dest)] + zip_backend::zip_restored_from(
            sources,
            compression,
            0,
            dest,
            force,
        )
    } else if is_tar_family(f) {
        tar_restores(sources, dest, force, effects(p.actions@))
    } else {
        effects(p.actions@) == compressor::extract_effects(
            output,
            f,
            dest,
            force,
            crate::codec::produced(sources[0].data@),
            false,
        )
    }
}

/// Whether the steps `es` restore the staged entries under `dest` from a
/// tar: each under its name as stored (the staged name, or the name with
/// `/` for each `\`), in order.
pub open spec fn tar_restores(
    sources: Seq<SourceEntry>,
    dest: Seq<char>,
    force: bool,
    es: Seq<Effect>,
) -> bool {
    exists|ns: Seq<Seq<char>>|
        {
            &&& ns.len() == sources.len()
            &&& forall|k: int|
                0 <= k < sources.len() ==> tar_backend::stored_as(sources[k].name@, #[trigger] ns[k])
            &&& es == seq![Effect::MakeDir(dest)] + #[trigger] tar_backend::restored_from(
                sources,
                ns,
                0,
                dest,
                force,
            )
        }
}

proof fn lemma_zip_read_back(
    output: Seq<char>,
    sources: Seq<SourceEntry>,
    compression: Compression,
    built: BuildOutcome,
    dest: Seq<char>,
    overwrite: bool,
    plan: Plan,
)
    requires
        zip_backend::created(sources, compression, built),
        built.result is Ok,
        extraction(output, built.result->Ok_0@, dest, None, overwrite, false, plan),
        clean_for(Format::Zip, sources, compression),
    ensures
        restores(Format::Zip, output, sources, compression, dest, overwrite, plan),
{
    let v = built.result->Ok_0@;
    let log = zip_backend::zip_log_of(sources, compression);
    assert(zip_backend::zip_signed(v, log));
    assert(v[0] == 0x50u8) by {
        assert(v.take(4)[0] == 0x50u8);
    }
    assert(read_format(output, v) == Some(Format::Zip));
    zip_backend::lemma_round_trip(sources, compression, v, dest, overwrite);
    assert(effects(plan.actions@) =~= seq![Effect::MakeDir(dest)] + zip_backend::zip_restored_from(
        sources,
        compression,
        0,
        dest,
        overwrite,
    ));
}

proof fn lemma_tar_read_back(
    f: Format,
    output: Seq<char>,
    sources: Seq<SourceEntry>,
    built: BuildOutcome,
    dest: Seq<char>,
    overwrite: bool,
    plan: Plan,
)
    requires
        is_tar_family(f),
        f != Format::Tar,
        write_format(output) == Some(f),
        tar_backend::created(f, sources, built),
        built.result is Ok,
        extraction(output, built.result->Ok_0@, dest, None, overwrite, false, plan),
        forall|j: int|
            0 <= j < sources.len() ==> tar_backend::clean_item(#[trigger] tar_backend::item_of(sources[j])),
    ensures
        tar_restores(sources, dest, overwrite, effects(plan.actions@)),
        plan.outcome is Ok,
{
    let v = built.result->Ok_0@;
    let c = tar_backend::layer(f)->Some_0;
    let m = crate::codec::magic(c);
    assert(starts_with(v, m));
    assert(v.take(m.len() as int) == m);
    assert(v[0] == m[0]) by {
        assert(v.take(m.len() as int)[0] == v[0]);
    }
    assert(v[1] == m[1]) by {
        assert(v.take(m.len() as int)[1] == v[1]);
    }
    assert(read_format(output, v) == Some(f));
    tar_backend::lemma_round_trip(f, sources, v, dest, overwrite);
    let image = tar_backend::unwrapped(f, v)->Some_0;
    let ns = tar_backend::stored_names(image, sources.len());
    assert(effects(plan.actions@) =~= seq![Effect::MakeDir(dest)] + tar_backend::restored_from(
        sources,
        ns,
        0,
        dest,
        overwrite,
    ));
}

/// Whether a staged name begins with what another format's signature is
/// made of (`PK` and 3, 4 or 5, 6; `Rar!`; `BZh`), so that a plain tar whose
/// first entry it names would be read as that format.
pub open spec fn signature_name(n: Seq<char>) -> bool {
    ||| n.len() >= 4 && n[0] as u32 == 0x50 && n[1] as u32 == 0x4B && ((n[2] as u32 == 3
        && n[3] as u32 == 4) || (n[2] as u32 == 5 && n[3] as u32 == 6))
    ||| n.len() >= 4 && n[0] as u32 == 0x52 && n[1] as u32 == 0x61 && n[2] as u32 == 0x72
        && n[3] as u32 == 0x21
    ||| n.len() >= 3 && n[0] as u32 == 0x42 && n[1] as u32 == 0x5A && n[2] as u32 == 0x68
}

/// Whether the text encoded (and zero-padded) as `w` begins with `sig`,
/// given that `w` begins with a name's encoding.
proof fn lemma_no_sig_after_ascii(name: Seq<char>, k: nat, w: Seq<u8>, a: Seq<u8>, bad: u8)
    requires
        w == encode_utf8(name) + zeros(k),
        forall|i: int| 0 <= i < a.len() ==> 0 < #[trigger] a[i] < 0x80,
        a.len() < w.len(),
        w.take(a.len() as int) == a,
        0x80 <= bad < 0xC0 || bad > 0xF7,
    ensures
        w[a.len() as int] != bad,
{
    lemma_ascii_prefix(name, k, a);
    let rest = name.skip(a.len() as int);
    lemma_utf8_front(rest, k);
    assert(w.skip(a.len() as int)[0] == w[a.len() as int]);
    if rest.len() == 0 {
        assert(zeros(k)[0] == 0);
    }
}

/// A plain tar built from entries whose first name is clean and not a
/// signature carries none of the signatures `read_format` looks for.
/// A tar image that begins with the zero-padded encoding of a name that is
/// no signature carries none of the signatures `read_format` looks for.
proof fn lemma_unsigned_name(image: Seq<u8>, name: Seq<char>)
    requires
        encode_utf8(name).len() <= 100,
        image.len() >= 512,
        image.take(100) == encode_utf8(name) + zeros((100 - encode_utf8(name).len()) as nat),
        !signature_name(name),
    ensures
        !starts_with(image, zip_local_magic()),
        !starts_with(image, zip_empty_magic()),
        !starts_with(image, sevenz_magic()),
        !starts_with(image, rar_magic()),
        !starts_with(image, gzip_magic()),
        !starts_with(image, xz_magic()),
        !starts_with(image, zstd_magic()),
        !starts_with(image, bzip2_magic()),
{
    let b = encode_utf8(name);
    let k = (100 - b.len()) as nat;
    let w = b + zeros(k);
    assert(image.take(100) == w);
    assert forall|m: Seq<u8>| m.len() <= 6 && #[trigger] starts_with(image, m) implies w.take(
        m.len() as int,
    ) == m by {
        assert(w.take(m.len() as int) =~= image.take(m.len() as int));
    }
    if starts_with(image, zip_local_magic()) {
        let m = zip_local_magic();
        assert(w.take(4) == m);
        lemma_ascii_prefix(name, k, m);
    }
    if starts_with(image, zip_empty_magic()) {
        let m = zip_empty_magic();
        assert(w.take(4) == m);
        lemma_ascii_prefix(name, k, m);
    }
    if starts_with(image, rar_magic()) {
        let m = rar_magic();
        assert(w.take(4) == m);
        lemma_ascii_prefix(name, k, m);
    }
    if starts_with(image, bzip2_magic()) {
        let m = bzip2_magic();
        assert(w.take(3) == m);
        lemma_ascii_prefix(name, k, m);
    }
    if starts_with(image, sevenz_magic()) {
        let m = sevenz_magic();
        assert(w.take(6) == m);
        let a = seq![0x37u8, 0x7Au8];
        assert(w.take(2) =~= a);
        lemma_no_sig_after_ascii(name, k, w, a, 0xBCu8);
        assert(w[2] == m[2]);
    }
    if starts_with(image, gzip_magic()) {
        let m = gzip_magic();
        assert(w.take(2) == m);
        let a = seq![0x1Fu8];
        assert(w.take(1) =~= a);
        lemma_no_sig_after_ascii(name, k, w, a, 0x8Bu8);
        assert(w[1] == m[1]);
    }
    if starts_with(image, zstd_magic()) {
        let m = zstd_magic();
        assert(w.take(4) == m);
        let a = seq![0x28u8];
        assert(w.take(1) =~= a);
        lemma_no_sig_after_ascii(name, k, w, a, 0xB5u8);
        assert(w[1] == m[1]);
    }
    if starts_with(image, xz_magic()) {
        let m = xz_magic();
        assert(w.take(6) == m);
        assert(w.take(0) =~= Seq::<u8>::empty());
        lemma_no_sig_after_ascii(name, k, w, Seq::<u8>::empty(), 0xFDu8);
        assert(w[0] == m[0]);
    }
}

/// Reading `\` as `/` makes no signature of a name that is none.
proof fn lemma_winform_signature(n: Seq<char>)
    requires
        !signature_name(n),
    ensures
        !signature_name(tar_backend::winform(n)),
{
    let w = tar_backend::winform(n);
    assert forall|i: int| 0 <= i < n.len() && #[trigger] w[i] as u32 != 0x2F implies w[i] == n[i] by {}
}

/// A plain tar built from entries whose first name is readable and not a
/// signature carries none of the signatures `read_format` looks for.
proof fn lemma_unsigned_tar(image: Seq<u8>, log: Seq<tar_backend::TarItem>)
    requires
        tar_backend::tar_leads(image, log),
        image.len() >= 512,
        log.len() > 0 ==> tar_backend::readable_name(log[0].0) && !signature_name(log[0].0),
    ensures
        !starts_with(image, zip_local_magic()),
        !starts_with(image, zip_empty_magic()),
        !starts_with(image, sevenz_magic()),
        !starts_with(image, rar_magic()),
        !starts_with(image, gzip_magic()),
        !starts_with(image, xz_magic()),
        !starts_with(image, zstd_magic()),
        !starts_with(image, bzip2_magic()),
{
    let sigs = seq![
        zip_local_magic(),
        zip_empty_magic(),
        sevenz_magic(),
        rar_magic(),
        gzip_magic(),
        xz_magic(),
        zstd_magic(),
        bzip2_magic(),
    ];
    assert forall|j: int|
        0 <= j < sigs.len() && sigs[j].len() > 0 && #[trigger] starts_with(
            image,
            sigs[j],
        ) implies image[0] == sigs[j][0] by {
        assert(image.take(sigs[j].len() as int)[0] == image[0]);
    }
    assert(sigs[0] == zip_local_magic());
    assert(sigs[1] == zip_empty_magic());
    assert(sigs[2] == sevenz_magic());
    assert(sigs[3] == rar_magic());
    assert(sigs[4] == gzip_magic());
    assert(sigs[5] == xz_magic());
    assert(sigs[6] == zstd_magic());
    assert(sigs[7] == bzip2_magic());
    if log.len() > 0 {
        let name = log[0].0;
        let b = encode_utf8(name);
        if b.len() <= 100 {
            let wn = tar_backend::winform(name);
            if image.take(100) == b + zeros((100 - b.len()) as nat) {
                lemma_unsigned_name(image, name);
            } else {
                lemma_winform_signature(name);
                assert(encode_utf8(wn).len() <= 100) by {
                    assert(image.take(100).len() == 100);
                }
                lemma_unsigned_name(image, wn);
            }
        }
    }
}

/// Extracting a plain tar that `create` built restores every staged entry,
/// unless the first entry's name spells another format's signature.
proof fn lemma_plain_tar_read_back(
    output: Seq<char>,
    sources: Seq<SourceEntry>,
    built: BuildOutcome,
    dest: Seq<char>,
    overwrite: bool,
    plan: Plan,
)
    requires
        write_format(output) == Some(Format::Tar),
        tar_backend::created(Format::Tar, sources, built),
        built.result is Ok,
        extraction(output, built.result->Ok_0@, dest, None, overwrite, false, plan),
        forall|j: int|
            0 <= j < sources.len() ==> tar_backend::clean_item(#[trigger] tar_backend::item_of(sources[j])),
        sources.len() > 0 ==> !signature_name(sources[0].name@),
    ensures
        tar_restores(sources, dest, overwrite, effects(plan.actions@)),
        plan.outcome is Ok,
{
    let v = built.result->Ok_0@;
    let log = tar_backend::log_of(sources);
    assert(tar_backend::unwrapped(Format::Tar, v) == Some(v));
    if sources.len() > 0 {
        assert(log[0] == tar_backend::item_of(sources[0]));
        assert(tar_backend::clean_item(tar_backend::item_of(sources[0])));
    }
    lemma_unsigned_tar(v, log);
    assert(read_format(output, v) == Some(Format::Tar));
    tar_backend::lemma_round_trip(Format::Tar, sources, v, dest, overwrite);
    let ns = tar_backend::stored_names(v, sources.len());
    assert(effects(plan.actions@) =~= seq![Effect::MakeDir(dest)] + tar_backend::restored_from(
        sources,
        ns,
        0,
        dest,
        overwrite,
    ));
}

proof fn lemma_single_read_back(
    f: Format,
    output: Seq<char>,
    sources: Seq<SourceEntry>,
    built: BuildOutcome,
    dest: Seq<char>,
    overwrite: bool,
    plan: Plan,
)
    requires
        is_single_file(f),
        write_format(output) == Some(f),
        sources.len() == 1,
        compressor::created(f, sources[0], built),
        built.result is Ok,
        extraction(output, built.result->Ok_0@, dest, None, overwrite, false, plan),
    ensures
        effects(plan.actions@) == compressor::extract_effects(
            output,
            f,
            dest,
            overwrite,
            crate::codec::produced(sources[0].data@),
            false,
        ),
        plan.outcome is Ok,
{
    let v = built.result->Ok_0@;
    let c = compressor::codec_of(f);
    let m = crate::codec::magic(c);
    assert(starts_with(v, m));
    assert(v.take(m.len() as int) == m);
    assert(v[0] == m[0]) by {
        assert(v.take(m.len() as int)[0] == v[0]);
    }
    assert(v[1] == m[1]) by {
        assert(v.take(m.len() as int)[1] == v[1]);
    }
    assert(read_format(output, v) == Some(f));
}

/// Extracting what `create` built gives back what was staged: every staged
/// entry is restored under `dest`, in order, with its contents, and the
/// extraction succeeds. A plain `.tar` carries no signature of its own, so
/// it is read back as a tar unless its first entry's name spells another
/// format's signature; that case is left out.
pub proof fn lemma_create_then_extract(
    output: Seq<char>,
    sources: Seq<SourceEntry>,
    compression: Compression,
    force: bool,
    output_exists: bool,
    built: BuildOutcome,
    dest: Seq<char>,
    overwrite: bool,
    plan: Plan,
)
    requires
        creation(output, sources, compression, force, output_exists, built),
        built.result is Ok,
        extraction(output, built.result->Ok_0@, dest, None, overwrite, false, plan),
        write_format(output) == Some(Format::Tar) && sources.len() > 0 ==> !signature_name(
            sources[0].name@,
        ),
        write_format(output) matches Some(f) ==> clean_for(f, sources, compression),
    ensures
        write_format(output) matches Some(f) && restores(
            f,
            output,
            sources,
            compression,
            dest,
            overwrite,
            plan,
        ),
{
    let f = write_format(output)->Some_0;
    assert(create_check(output, sources.len(), first_is_dir(sources), force, output_exists) == Ok::<
        Format,
        ErrorView,
    >(f));
    if f == Format::Zip {
        lemma_zip_read_back(output, sources, compression, built, dest, overwrite, plan);
    } else if f == Format::Tar {
        lemma_plain_tar_read_back(output, sources, built, dest, overwrite, plan);
    } else if is_tar_family(f) {
        lemma_tar_read_back(f, output, sources, built, dest, overwrite, plan);
    } else {
        lemma_single_read_back(f, output, sources, built, dest, overwrite, plan);
    }
}

/// What `create` wrote is read back as the format it chose from the
/// output's name: detection by content (and name) agrees with the choice
/// made when writing. A plain `.tar` carries no signature of its own, so
/// one whose first entry is not readable or spells another format's
/// signature is left out.
pub proof fn lemma_created_format(
    output: Seq<char>,
    sources: Seq<SourceEntry>,
    compression: Compression,
    force: bool,
    output_exists: bool,
    built: BuildOutcome,
)
    requires
        creation(output, sources, compression, force, output_exists, built),
        built.result is Ok,
        write_format(output) == Some(Format::Tar) && sources.len() > 0 ==> tar_backend::readable_name(
            sources[0].name@,
        ) && !signature_name(sources[0].name@),
    ensures
        write_format(output) matches Some(f) && read_format(output, built.result->Ok_0@) == Some(f),
{
    let f = write_format(output)->Some_0;
    assert(create_check(output, sources.len(), first_is_dir(sources), force, output_exists) == Ok::<
        Format,
        ErrorView,
    >(f));
    let v = built.result->Ok_0@;
    if f == Format::Zip {
        let log = zip_backend::zip_log_of(sources, compression);
        assert(zip_backend::zip_signed(v, log));
        assert(v[0] == 0x50u8) by {
            assert(v.take(4)[0] == 0x50u8);
        }
    } else if f == Format::Tar {
        let log = tar_backend::log_of(sources);
        assert(tar_backend::unwrapped(Format::Tar, v) == Some(v));
        if sources.len() > 0 {
            assert(log[0] == tar_backend::item_of(sources[0]));
        }
        lemma_unsigned_tar(v, log);
    } else {
        let m = if is_tar_family(f) {
            crate::codec::magic(tar_backend::layer(f)->Some_0)
        } else {
            crate::codec::magic(compressor::codec_of(f))
        };
        assert(starts_with(v, m));
        assert(v[0] == m[0]) by {
            assert(v.take(m.len() as int)[0] == v[0]);
        }
        assert(v[1] == m[1]) by {
            assert(v.take(m.len() as int)[1] == v[1]);
        }
    }
}

/// Whether the archive `archive`, when it is a single compressed file, has
/// an inner name other than `..` that does not begin with a drive prefix.
pub open spec fn inner_name_ok(archive: Seq<char>, bytes: Seq<u8>, windows: bool) -> bool {
    match read_format(archive, bytes) {
        Some(f) => !is_single_file(f) || (compressor::inner_name_on(archive, f, windows) != dotdot()
            && !has_drive(compressor::inner_name_on(archive, f, windows), windows)),
        None => true,
    }
}

/// No file or directory that an extraction plans to make lies outside
/// `dest`, on Unix and on Windows alike: every directory made is `dest` or
/// lies under it, and so does every file written. Zip entries go to names
/// that never climb above the destination, tar entries to names without a
/// drive, a root or `..`, on Windows with each name made safe, parent
/// directories to the parents of those names, and a compressed file to its
/// inner name, unless that name is `..` or begins with a drive.
pub proof fn lemma_extraction_stays_inside(
    archive: Seq<char>,
    bytes: Seq<u8>,
    dest: Seq<char>,
    sel: Option<Seq<Seq<char>>>,
    force: bool,
    windows: bool,
    plan: Plan,
)
    requires
        extraction(archive, bytes, dest, sel, force, windows, plan),
        inner_name_ok(archive, bytes, windows),
    ensures
        steps_inside(effects(plan.actions@), dest, windows),
{
    let head = seq![Effect::MakeDir(dest)];
    assert(steps_inside(head, dest, windows));
    if read_format(archive, bytes) is Some {
        let f = read_format(archive, bytes)->Some_0;
        if f == Format::Zip {
            if zip_backend::zip_opened(bytes) is Ok {
                let n = zip_backend::zip_opened(bytes)->Ok_0;
                zip_backend::lemma_zip_extract_inside(bytes, 0, n as int, dest, sel, force, windows);
                lemma_steps_inside_concat(
                    head,
                    zip_backend::zip_extract_from(bytes, 0, n as int, dest, sel, force, windows).0,
                    dest,
                    windows,
                );
            }
        } else if is_tar_family(f) {
            if tar_backend::unwrapped(f, bytes) is Some {
                let image = tar_backend::unwrapped(f, bytes)->Some_0;
                tar_backend::lemma_extract_inside(image, 0, 0, dest, sel, force, windows);
                lemma_steps_inside_concat(
                    head,
                    tar_backend::extract_from(image, 0, 0, dest, sel, force, windows).0,
                    dest,
                    windows,
                );
            }
        } else if is_single_file(f) {
            compressor::lemma_extract_inside(
                archive,
                f,
                dest,
                force,
                decoding(compressor::codec_of(f), bytes),
                windows,
            );
        }
    }
}

/// Extracting only the entries whose names are among `names`, where
/// `names` holds every name that listing the archive gives, plans exactly
/// what extracting every entry plans, and ends the same way.
pub proof fn lemma_select_all(
    archive: Seq<char>,
    bytes: Seq<u8>,
    dest: Seq<char>,
    names: Seq<Seq<char>>,
    force: bool,
    windows: bool,
    listed: Result<Vec<EntryInfo>, ArchiveError>,
    some: Plan,
    all: Plan,
)
    requires
        listing(archive, bytes, listed, windows),
        listed matches Ok(v) && forall|i: int| 0 <= i < v.len() ==> names.contains(#[trigger] v[i].name@),
        extraction(archive, bytes, dest, Some(names), force, windows, some),
        extraction(archive, bytes, dest, None, force, windows, all),
    ensures
        effects(some.actions@) == effects(all.actions@),
        outcome_view(some.outcome) == outcome_view(all.outcome),
{
    let v = listed->Ok_0;
    let f = read_format(archive, bytes)->Some_0;
    if f == Format::Zip {
        let n = zip_backend::zip_opened(bytes)->Ok_0;
        let es = zip_backend::zip_list_from(bytes, 0, n as int)->Ok_0;
        assert forall|j: int| 0 <= j < es.len() implies names.contains(#[trigger] es[j].0) by {
            assert(entries_view(v@)[j] == es[j]);
            assert(v[j].name@ == es[j].0);
        }
        zip_backend::lemma_zip_select_listed(bytes, 0, n as int, dest, names, force, windows);
    } else if is_tar_family(f) {
        let image = tar_backend::unwrapped(f, bytes)->Some_0;
        let es = tar_backend::list_from(image, 0)->Ok_0;
        assert forall|j: int| 0 <= j < es.len() implies names.contains(#[trigger] es[j].0) by {
            assert(entries_view(v@)[j] == es[j]);
            assert(v[j].name@ == es[j].0);
        }
        tar_backend::lemma_select_listed(image, 0, 0, dest, names, force, windows);
    }
}

/// Whether the steps `es` guard every file they write against overwriting
/// when overwriting is refused (`force` false): the write of a file comes
/// after a check that nothing is at that path, with no other write between
/// the two. When overwriting is allowed, no such check is made.
pub open spec fn overwrite_guarded(es: Seq<Effect>, force: bool) -> bool {
    if force {
        forall|k: int| 0 <= k < es.len() ==> !(#[trigger] es[k] is EnsureAbsent)
    } else {
        forall|k: int|
            #![trigger es[k]]
            0 <= k < es.len() && es[k] is Write ==> exists|j: int|
                0 <= j < k && es[j] == Effect::EnsureAbsent(es[k]->Write_0) && forall|l: int|
                    j < l < k ==> !(#[trigger] es[l] is Write)
    }
}

/// Steps that neither write nor check are guarded.
proof fn lemma_guarded_plain(es: Seq<Effect>, force: bool)
    requires
        forall|k: int| 0 <= k < es.len() ==> !(#[trigger] es[k] is Write) && !(es[k] is EnsureAbsent),
    ensures
        overwrite_guarded(es, force),
{
}

/// Steps that neither write nor check, then the check `g`, then one write:
/// guarded when `g` checks the written path unless `force`, and is empty
/// with `force`.
proof fn lemma_guarded_write(pre: Seq<Effect>, g: Seq<Effect>, w: Effect, force: bool)
    requires
        forall|k: int| 0 <= k < pre.len() ==> !(#[trigger] pre[k] is Write) && !(pre[k] is EnsureAbsent),
        w is Write,
        force ==> g.len() == 0,
        !force ==> g == seq![Effect::EnsureAbsent(w->Write_0)],
    ensures
        overwrite_guarded(pre + g + seq![w], force),
{
    let es = pre + g + seq![w];
    if force {
        assert forall|k: int| 0 <= k < es.len() implies !(#[trigger] es[k] is EnsureAbsent) by {
            if k < pre.len() {
                assert(es[k] == pre[k]);
            }
        }
    } else {
        assert forall|k: int| 0 <= k < es.len() && #[trigger] es[k] is Write implies exists|j: int|
            0 <= j < k && es[j] == Effect::EnsureAbsent(es[k]->Write_0) && forall|l: int|
                j < l < k ==> !(#[trigger] es[l] is Write) by {
            if k < pre.len() {
                assert(es[k] == pre[k]);
            }
            assert(k == pre.len() + 1);
            assert(es[pre.len() as int] == g[0]);
        }
    }
}

/// Guarded steps put together are guarded.
proof fn lemma_guarded_concat(a: Seq<Effect>, b: Seq<Effect>, force: bool)
    requires
        overwrite_guarded(a, force),
        overwrite_guarded(b, force),
    ensures
        overwrite_guarded(a + b, force),
{
    let es = a + b;
    if force {
        assert forall|k: int| 0 <= k < es.len() implies !(#[trigger] es[k] is EnsureAbsent) by {
            if k < a.len() {
                assert(es[k] == a[k]);
            } else {
                assert(es[k] == b[k - a.len()]);
            }
        }
    } else {
        assert forall|k: int| 0 <= k < es.len() && #[trigger] es[k] is Write implies exists|j: int|
            0 <= j < k && es[j] == Effect::EnsureAbsent(es[k]->Write_0) && forall|l: int|
                j < l < k ==> !(#[trigger] es[l] is Write) by {
            if k < a.len() {
                assert(es[k] == a[k]);
                let j = choose|j: int|
                    0 <= j < k && a[j] == Effect::EnsureAbsent(a[k]->Write_0) && forall|l: int|
                        j < l < k ==> !(#[trigger] a[l] is Write);
                assert(es[j] == a[j]);
                assert forall|l: int| j < l < k implies !(#[trigger] es[l] is Write) by {
                    assert(es[l] == a[l]);
                }
            } else {
                let kb = k - a.len();
                assert(es[k] == b[kb]);
                assert(b[kb] is Write);
                let j = choose|j: int|
                    0 <= j < kb && b[j] == Effect::EnsureAbsent(b[kb]->Write_0) && forall|l: int|
                        j < l < kb ==> !(#[trigger] b[l] is Write);
                assert(es[j + a.len()] == b[j]);
                assert forall|l: int| j + a.len() < l < k implies !(#[trigger] es[l] is Write) by {
                    assert(es[l] == b[l - a.len()]);
                }
            }
        }
    }
}

/// The steps for one tar entry are guarded.
proof fn lemma_tar_step_guarded(
    image: Seq<u8>,
    i: int,
    idx: nat,
    dest: Seq<char>,
    sel: Option<Seq<Seq<char>>>,
    force: bool,
    windows: bool,
)
    ensures
        overwrite_guarded(tar_backend::entry_step(image, i, idx, dest, sel, force, windows).0, force),
{
    let st = tar_backend::entry_step(image, i, idx, dest, sel, force, windows);
    if tar_backend::tar_slot(image, i) == Ok::<bool, Seq<char>>(true) {
        let h = tar_backend::tar_head(image, i);
        if let Ok(raw) = h.0 {
            if selected(sel, raw) && !crate::paths::escapes_on(raw, windows) && !h.1 {
                let safe = names::sanitized(raw, windows);
                let out = join_path_on(dest, safe, windows);
                let pre = seq![Effect::Report(idx as u64, 0, safe)] + tar_backend::parent_dirs(
                    dest,
                    safe,
                    windows,
                );
                let w = st.0.last();
                assert(st.0 =~= pre + tar_backend::guard(out, force) + seq![w]);
                lemma_guarded_write(pre, tar_backend::guard(out, force), w, force);
                return;
            }
        }
    }
    lemma_guarded_plain(st.0, force);
}

/// Extracting a tar from entry `i` on plans guarded steps.
proof fn lemma_tar_extract_guarded(
    image: Seq<u8>,
    i: int,
    idx: nat,
    dest: Seq<char>,
    sel: Option<Seq<Seq<char>>>,
    force: bool,
    windows: bool,
)
    ensures
        overwrite_guarded(tar_backend::extract_from(image, i, idx, dest, sel, force, windows).0, force),
    decreases image.len() + 1 - i,
{
    if 0 <= i <= image.len() {
        let st = tar_backend::entry_step(image, i, idx, dest, sel, force, windows);
        lemma_tar_step_guarded(image, i, idx, dest, sel, force, windows);
        if st.1 is None {
            lemma_tar_extract_guarded(image, i + 1, st.2, dest, sel, force, windows);
            lemma_guarded_concat(
                st.0,
                tar_backend::extract_from(image, i + 1, st.2, dest, sel, force, windows).0,
                force,
            );
        }
    } else {
        lemma_guarded_plain(seq![], force);
    }
}

/// The steps for one zip entry are guarded.
proof fn lemma_zip_step_guarded(
    image: Seq<u8>,
    i: int,
    n: int,
    dest: Seq<char>,
    sel: Option<Seq<Seq<char>>>,
    force: bool,
    windows: bool,
)
    ensures
        overwrite_guarded(zip_backend::zip_step(image, i, n, dest, sel, force, windows).0, force),
{
    let st = zip_backend::zip_step(image, i, n, dest, sel, force, windows);
    if let Ok(m) = zip_backend::zip_entry_at(image, i) {
        if selected(sel, m.0) {
            if let Some(enc) = zip_backend::zip_enclosed(m.0, windows) {
                if !zip_backend::zip_dir_name(m.0) {
                    let safe = names::sanitized(enc, windows);
                    let out = join_path_on(dest, safe, windows);
                    let pre = seq![Effect::Report(i as u64, n as u64, safe)]
                        + tar_backend::parent_dirs(dest, safe, windows);
                    let w = st.0.last();
                    assert(st.0 =~= pre + tar_backend::guard(out, force) + seq![w]);
                    lemma_guarded_write(pre, tar_backend::guard(out, force), w, force);
                    return;
                }
            }
        }
    }
    lemma_guarded_plain(st.0, force);
}

/// Extracting a zip from entry `i` on plans guarded steps.
proof fn lemma_zip_extract_guarded(
    image: Seq<u8>,
    i: int,
    n: int,
    dest: Seq<char>,
    sel: Option<Seq<Seq<char>>>,
    force: bool,
    windows: bool,
)
    ensures
        overwrite_guarded(zip_backend::zip_extract_from(image, i, n, dest, sel, force, windows).0, force),
    decreases n - i,
{
    if i < n {
        let st = zip_backend::zip_step(image, i, n, dest, sel, force, windows);
        lemma_zip_step_guarded(image, i, n, dest, sel, force, windows);
        if st.1 is None {
            lemma_zip_extract_guarded(image, i + 1, n, dest, sel, force, windows);
            lemma_guarded_concat(
                st.0,
                zip_backend::zip_extract_from(image, i + 1, n, dest, sel, force, windows).0,
                force,
            );
        }
    } else {
        lemma_guarded_plain(zip_backend::zip_extract_from(image, i, n, dest, sel, force, windows).0, force);
    }
}

/// Every extraction refuses to overwrite unless `force` is set: without
/// it, each file the plan writes (from a zip, a tar or a compressed file) is
/// preceded by a check that its path is free, with no write between the
/// check and the write; with it, the plan makes no such check.
pub proof fn lemma_extraction_guards_overwrites(
    archive: Seq<char>,
    bytes: Seq<u8>,
    dest: Seq<char>,
    sel: Option<Seq<Seq<char>>>,
    force: bool,
    windows: bool,
    plan: Plan,
)
    requires
        extraction(archive, bytes, dest, sel, force, windows, plan),
    ensures
        overwrite_guarded(effects(plan.actions@), force),
{
    let es = effects(plan.actions@);
    let head = seq![Effect::MakeDir(dest)];
    lemma_guarded_plain(head, force);
    lemma_guarded_plain(seq![], force);
    if read_format(archive, bytes) is Some {
        let f = read_format(archive, bytes)->Some_0;
        if f == Format::Zip {
            if zip_backend::zip_opened(bytes) is Ok {
                let n = zip_backend::zip_opened(bytes)->Ok_0;
                lemma_zip_extract_guarded(bytes, 0, n as int, dest, sel, force, windows);
                lemma_guarded_concat(
                    head,
                    zip_backend::zip_extract_from(bytes, 0, n as int, dest, sel, force, windows).0,
                    force,
                );
            } else {
                assert(es =~= seq![]);
            }
        } else if is_tar_family(f) {
            if tar_backend::unwrapped(f, bytes) is Some {
                let image = tar_backend::unwrapped(f, bytes)->Some_0;
                lemma_tar_extract_guarded(image, 0, 0, dest, sel, force, windows);
                lemma_guarded_concat(
                    head,
                    tar_backend::extract_from(image, 0, 0, dest, sel, force, windows).0,
                    force,
                );
            }
        } else if is_single_file(f) {
            let d = decoding(compressor::codec_of(f), bytes);
            let out = compressor::target(archive, f, dest, windows);
            let pre = seq![Effect::MakeDir(dest)];
            let g = if force {
                Seq::<Effect>::empty()
            } else {
                seq![Effect::EnsureAbsent(out)]
            };
            let mid = seq![Effect::Report(0, 1, out)];
            let w = Effect::Write(out, d.0, None, false);
            let tail = if d.1 is None {
                seq![Effect::Report(1, 1, "done"@)]
            } else {
                Seq::<Effect>::empty()
            };
            assert(es =~= pre + g + mid + seq![w] + tail);
            assert forall|k: int| 0 <= k < es.len() && #[trigger] es[k] is Write implies k == pre.len()
                + g.len() + 1 by {
            }
            if !force {
                let k: int = (pre.len() + g.len() + 1) as int;
                assert(es[1] == Effect::EnsureAbsent(out));
                assert(es[k] == w);
            }
            lemma_guarded_plain(tail, force);
        } else {
            assert(es =~= seq![]);
        }
    } else {
        assert(es =~= seq![]);
    }
}

/// An entry whose name is not among the selected names is skipped: a tar
/// entry, or a zip entry, outside the selection plans no step and does not
/// end the extraction, and the count of extracted entries stays the same.
pub proof fn lemma_unselected_entries_skipped(
    image: Seq<u8>,
    i: int,
    idx: nat,
    n: int,
    dest: Seq<char>,
    names: Seq<Seq<char>>,
    force: bool,
    windows: bool,
)
    ensures
        tar_backend::tar_slot(image, i) == Ok::<bool, Seq<char>>(true) && (tar_backend::tar_head(
            image,
            i,
        ).0 matches Ok(raw) && !names.contains(raw)) ==> tar_backend::entry_step(
            image,
            i,
            idx,
            dest,
            Some(names),
            force,
            windows,
        ) == (Seq::<Effect>::empty(), None::<Result<(), ErrorView>>, idx),
        (zip_backend::zip_entry_at(image, i) matches Ok(m) && !names.contains(m.0))
            ==> zip_backend::zip_step(image, i, n, dest, Some(names), force, windows) == (
            Seq::<Effect>::empty(),
            None::<Result<(), ErrorView>>,
        ),
{
}

} // verus!
