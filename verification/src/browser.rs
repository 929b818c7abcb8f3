//! The state of the desktop front end and how each user action or worker
//! message changes it: which archive is open and which folder of it is shown,
//! which files are selected, which files are staged for a new archive, and
//! what the status line says. Drawing the window, the file dialogs and running
//! jobs on a worker thread are left to the front end, which asks this state
//! what to do and tells it what happened.
use vstd::prelude::*;
use crate::archive::{EntryInfo, Progress};
use crate::cli::Compression;
use crate::error::{error_text, ArchiveError};
use crate::paths::{join_with, pieces};
use crate::text::{chars_eq, chars_of, concat_chars, string_from_vec, take_chars};

verus! {

/// What the front end shows and works on.
#[derive(Debug)]
pub struct Browser {
    /// The archive being browsed.
    pub archive_path: Option<String>,
    /// Its entries, as listed.
    pub entries: Vec<EntryInfo>,
    /// The folder shown ("" is the root).
    pub current_dir: String,
    /// The selected files (full paths).
    pub selected: Vec<String>,
    /// Whether a job is running.
    pub busy: bool,
    /// The job's last progress report.
    pub progress: Option<Progress>,
    /// The status line.
    pub status: String,
    /// Files staged for a new archive.
    pub staged: Vec<String>,
    /// The compression for a new zip.
    pub method: Compression,
}

/// Building a new archive from the staged files, once the user has picked
/// where.
#[derive(Debug)]
pub struct CreateJob {
    pub inputs: Vec<String>,
    pub method: Compression,
}

/// Extracting the open archive (the selected files, or all) once the user
/// has picked where.
#[derive(Debug)]
pub struct ExtractJob {
    pub archive: String,
    pub names: Option<Vec<String>>,
}

/// Texts as sequences.
pub open spec fn texts(v: Seq<String>) -> Seq<Seq<char>> {
    v.map_values(|s: String| s@)
}

/// The decimal digit `d` (0 to 9).
pub open spec fn digit(d: nat) -> char {
    if d == 0 {
        '0'
    } else if d == 1 {
        '1'
    } else if d == 2 {
        '2'
    } else if d == 3 {
        '3'
    } else if d == 4 {
        '4'
    } else if d == 5 {
        '5'
    } else if d == 6 {
        '6'
    } else if d == 7 {
        '7'
    } else if d == 8 {
        '8'
    } else {
        '9'
    }
}

/// `n` written in decimal.
pub open spec fn decimal(n: nat) -> Seq<char>
    decreases n,
{
    if n < 10 {
        seq![digit(n)]
    } else {
        decimal(n / 10).push(digit(n % 10))
    }
}

/// Index of the last `/` in `s`, or -1.
pub open spec fn last_slash(s: Seq<char>) -> int
    decreases s.len(),
{
    if s.len() == 0 {
        -1
    } else if s.last() == '/' {
        s.len() - 1
    } else {
        last_slash(s.drop_last())
    }
}

/// The folder above `dir`: what comes before its last `/`, or the root.
pub open spec fn folder_above(dir: Seq<char>) -> Seq<char> {
    let k = last_slash(dir);
    if k < 0 {
        seq![]
    } else {
        dir.take(k)
    }
}

/// The breadcrumbs of `dir`: each `/`-separated segment with the path that
/// ends at it; none at the root.
pub open spec fn crumbs_of(dir: Seq<char>) -> Seq<(Seq<char>, Seq<char>)> {
    if dir.len() == 0 {
        seq![]
    } else {
        let ps = pieces(dir);
        Seq::new(ps.len(), |i: int| (ps[i], join_with(ps.take(i + 1), '/')))
    }
}

/// `s` without the items equal to `p`.
pub open spec fn without(s: Seq<Seq<char>>, p: Seq<char>) -> Seq<Seq<char>>
    decreases s.len(),
{
    if s.len() == 0 {
        s
    } else {
        let r = without(s.drop_last(), p);
        if s.last() == p {
            r
        } else {
            r.push(s.last())
        }
    }
}

/// The selection after clicking the file `p`: taken out if it was selected,
/// added otherwise.
pub open spec fn toggled(s: Seq<Seq<char>>, p: Seq<char>) -> Seq<Seq<char>> {
    if s.contains(p) {
        without(s, p)
    } else {
        s.push(p)
    }
}

/// The status after an archive was opened, or failed to open.
pub open spec fn opened_status(r: Result<nat, ArchiveError>) -> Seq<char> {
    match r {
        Ok(n) => "Opened "@ + decimal(n) + " entries"@,
        Err(e) => "Error: "@ + error_text(e),
    }
}

fn digit_char(d: u64) -> (c: char)
    requires
        d < 10,
    ensures
        c == digit(d as nat),
{
    if d == 0 {
        '0'
    } else if d == 1 {
        '1'
    } else if d == 2 {
        '2'
    } else if d == 3 {
        '3'
    } else if d == 4 {
        '4'
    } else if d == 5 {
        '5'
    } else if d == 6 {
        '6'
    } else if d == 7 {
        '7'
    } else if d == 8 {
        '8'
    } else {
        '9'
    }
}

/// `n` in decimal.
pub fn decimal_of(n: u64) -> (r: Vec<char>)
    ensures
        r@ == decimal(n as nat),
    decreases n,
{
    if n < 10 {
        let mut v: Vec<char> = Vec::new();
        v.push(digit_char(n));
        assert(v@ =~= seq![digit(n as nat)]);
        v
    } else {
        let mut v = decimal_of(n / 10);
        v.push(digit_char(n % 10));
        v
    }
}

proof fn lemma_contains_step(s: Seq<Seq<char>>, i: int, p: Seq<char>)
    requires
        0 <= i < s.len(),
    ensures
        s.take(i + 1).contains(p) <==> (s.take(i).contains(p) || s[i] == p),
{
    let t = s.take(i + 1);
    let u = s.take(i);
    if t.contains(p) {
        let k = choose|k: int| 0 <= k < t.len() && t[k] == p;
        if k < i {
            assert(u[k] == p);
        }
    }
    if u.contains(p) {
        let k = choose|k: int| 0 <= k < u.len() && u[k] == p;
        assert(t[k] == p);
    }
    if s[i] == p {
        assert(t[i] == p);
    }
}

fn cat3(a: &str, b: &Vec<char>, c: &str) -> (r: String)
    ensures
        r@ == a@ + b@ + c@,
{
    let ab = concat_chars(&chars_of(a), b);
    string_from_vec(&concat_chars(&ab, &chars_of(c)))
}

/// What a worker sends while it runs: a progress report, or how the job
/// ended.
#[derive(Debug)]
pub enum JobMsg {
    Progress(Progress),
    Done(Result<(), String>),
}

/// The status text a finished job leaves.
pub open spec fn done_text(r: Result<(), String>) -> Seq<char> {
    match r {
        Ok(()) => "Done."@,
        Err(e) => "Error: "@ + e@,
    }
}

/// Whether the messages `msgs` hold a `Done`.
pub open spec fn batch_done(msgs: Seq<JobMsg>) -> bool
    decreases msgs.len(),
{
    msgs.len() > 0 && (msgs.last() is Done || batch_done(msgs.drop_last()))
}

/// The status after the messages `msgs`, starting from `s`: the text of the
/// last `Done`, or `s` when there is none.
pub open spec fn batch_status(s: Seq<char>, msgs: Seq<JobMsg>) -> Seq<char>
    decreases msgs.len(),
{
    if msgs.len() == 0 {
        s
    } else {
        match msgs.last() {
            JobMsg::Done(r) => done_text(r),
            JobMsg::Progress(_) => batch_status(s, msgs.drop_last()),
        }
    }
}

/// The progress after the messages `msgs`, starting from `p`: the last
/// report, or `p` when there is none.
pub open spec fn batch_progress(p: Option<Progress>, msgs: Seq<JobMsg>) -> Option<Progress>
    decreases msgs.len(),
{
    if msgs.len() == 0 {
        p
    } else {
        match msgs.last() {
            JobMsg::Progress(q) => Some(q),
            JobMsg::Done(_) => batch_progress(p, msgs.drop_last()),
        }
    }
}

impl Browser {
    /// Nothing open, nothing staged, deflate for new zips.
    pub fn new() -> (r: Browser)
        ensures
            r.archive_path is None,
            r.entries@.len() == 0,
            r.current_dir@.len() == 0,
            r.selected@.len() == 0,
            !r.busy,
            r.progress is None,
            r.status@.len() == 0,
            r.staged@.len() == 0,
            r.method == Compression::Deflate,
    {
        Browser {
            archive_path: None,
            entries: Vec::new(),
            current_dir: String::new(),
            selected: Vec::new(),
            busy: false,
            progress: None,
            status: String::new(),
            staged: Vec::new(),
            method: Compression::Deflate,
        }
    }

    /// Takes in the listing of the archive at `path`: on success it is shown
    /// from its root with nothing selected; either way the status says what
    /// happened.
    pub fn open_archive(&mut self, path: String, listing: Result<Vec<EntryInfo>, ArchiveError>)
        ensures
            final(self).status@ == opened_status(
                match listing {
                    Ok(v) => Ok(v@.len()),
                    Err(e) => Err(e),
                },
            ),
            listing is Ok ==> {
                &&& final(self).archive_path == Some(path)
                &&& final(self).entries@ == listing->Ok_0@
                &&& final(self).current_dir@.len() == 0
                &&& final(self).selected@.len() == 0
            },
            listing is Err ==> {
                &&& final(self).archive_path == old(self).archive_path
                &&& final(self).entries@ == old(self).entries@
                &&& final(self).current_dir == old(self).current_dir
                &&& final(self).selected@ == old(self).selected@
            },
            final(self).busy == old(self).busy,
            final(self).staged@ == old(self).staged@,
            final(self).method == old(self).method,
    {
        match listing {
            Ok(entries) => {
                let n = entries.len() as u64;
                self.status = cat3("Opened ", &decimal_of(n), " entries");
                self.entries = entries;
                self.current_dir = String::new();
                self.selected = Vec::new();
                self.archive_path = Some(path);
            },
            Err(e) => {
                let m = chars_of(e.message().as_str());
                self.status = cat3("Error: ", &m, "");
                assert(("Error: "@ + m@ + ""@) =~= "Error: "@ + error_text(e)) by {
                    reveal_strlit("");
                }
            },
        }
    }

    /// Adds files to those staged for a new archive; the status counts them.
    pub fn stage(&mut self, paths: Vec<String>)
        ensures
            final(self).staged@ == old(self).staged@ + paths@,
            final(self).status@ == decimal(final(self).staged@.len()) + " file(s) staged"@,
            final(self).archive_path == old(self).archive_path,
            final(self).current_dir == old(self).current_dir,
            final(self).selected@ == old(self).selected@,
            final(self).busy == old(self).busy,
    {
        let mut p = paths;
        let ghost before = self.staged@;
        let ghost added = p@;
        self.staged.append(&mut p);
        assert(self.staged@ =~= before + added);
        let n = self.staged.len() as u64;
        self.status = cat3("", &decimal_of(n), " file(s) staged");
        assert(""@ + decimal(n as nat) + " file(s) staged"@ =~= decimal(n as nat)
            + " file(s) staged"@) by {
            reveal_strlit("");
        }
    }

    /// Forgets the staged files.
    pub fn clear_staged(&mut self)
        ensures
            final(self).staged@.len() == 0,
            final(self).status == old(self).status,
            final(self).current_dir == old(self).current_dir,
            final(self).selected@ == old(self).selected@,
    {
        self.staged = Vec::new();
    }

    /// Chooses the compression for new zips.
    pub fn set_method(&mut self, method: Compression)
        ensures
            final(self).method == method,
            final(self).staged@ == old(self).staged@,
            final(self).current_dir == old(self).current_dir,
    {
        self.method = method;
    }

    /// Goes to the folder above the one shown (at the root, stays there).
    pub fn go_up(&mut self)
        ensures
            final(self).current_dir@ == if old(self).current_dir@.len() == 0 {
                old(self).current_dir@
            } else {
                folder_above(old(self).current_dir@)
            },
            final(self).selected@ == old(self).selected@,
            final(self).status == old(self).status,
    {
        let d = chars_of(self.current_dir.as_str());
        if d.len() == 0 {
            return;
        }
        let mut k: usize = d.len();
        assert(d@.take(k as int) =~= d@);
        while k > 0
            invariant
                d@ == old(self).current_dir@,
                k <= d@.len(),
                last_slash(d@) == last_slash(d@.take(k as int)),
                self.current_dir == old(self).current_dir,
                self.selected@ == old(self).selected@,
                self.status == old(self).status,
            decreases k,
        {
            assert(d@.take(k as int).drop_last() =~= d@.take(k - 1));
            if d[k - 1] == '/' {
                self.current_dir = string_from_vec(&take_chars(&d, k - 1));
                return;
            }
            k = k - 1;
        }
        self.current_dir = String::new();
    }

    /// Goes to the root of the archive.
    pub fn go_root(&mut self)
        ensures
            final(self).current_dir@.len() == 0,
            final(self).selected@ == old(self).selected@,
            final(self).status == old(self).status,
    {
        self.current_dir = String::new();
    }

    /// Goes to the folder `dir` (a breadcrumb's path).
    pub fn go_to(&mut self, dir: String)
        ensures
            final(self).current_dir == dir,
            final(self).selected@ == old(self).selected@,
            final(self).status == old(self).status,
    {
        self.current_dir = dir;
    }

    /// Opens the folder `dir` (a folder row's full path): it is shown, and
    /// nothing is selected.
    pub fn enter_dir(&mut self, dir: String)
        ensures
            final(self).current_dir == dir,
            final(self).selected@.len() == 0,
            final(self).status == old(self).status,
    {
        self.current_dir = dir;
        self.selected = Vec::new();
    }

    /// A click on a folder row clears the selection.
    pub fn click_dir(&mut self)
        ensures
            final(self).selected@.len() == 0,
            final(self).current_dir == old(self).current_dir,
            final(self).status == old(self).status,
    {
        self.selected = Vec::new();
    }

    /// A click on a file row selects the file, or unselects it if it was
    /// selected.
    pub fn toggle_file(&mut self, path: String)
        ensures
            texts(final(self).selected@) == toggled(texts(old(self).selected@), path@),
            final(self).current_dir == old(self).current_dir,
            final(self).status == old(self).status,
    {
        let p = chars_of(path.as_str());
        let ghost sel = texts(self.selected@);
        let n = self.selected.len();
        let mut kept: Vec<String> = Vec::new();
        let mut found = false;
        let mut i: usize = 0;
        while i < n
            invariant
                n == self.selected@.len(),
                sel == texts(self.selected@),
                p@ == path@,
                i <= n,
                texts(kept@) == without(sel.take(i as int), p@),
                found <==> sel.take(i as int).contains(p@),
                self.current_dir == old(self).current_dir,
                self.status == old(self).status,
                self.selected@ == old(self).selected@,
            decreases n - i,
        {
            let x = self.selected[i].clone();
            proof {
                lemma_contains_step(sel, i as int, p@);
                assert(sel.take(i + 1).drop_last() =~= sel.take(i as int));
            }
            if chars_eq(&chars_of(x.as_str()), &p) {
                found = true;
            } else {
                let ghost before = texts(kept@);
                kept.push(x);
                assert(texts(kept@) =~= before.push(sel[i as int]));
            }
            i = i + 1;
        }
        assert(sel.take(n as int) =~= sel);
        if found {
            self.selected = kept;
        } else {
            let ghost before = texts(self.selected@);
            self.selected.push(path);
            assert(texts(self.selected@) =~= before.push(p@));
        }
    }

    /// The breadcrumbs of the folder shown.
    pub fn crumbs(&self) -> (r: Vec<(String, String)>)
        ensures
            r@.len() == crumbs_of(self.current_dir@).len(),
            forall|i: int|
                0 <= i < r@.len() ==> (#[trigger] r@[i]).0@ == crumbs_of(self.current_dir@)[i].0
                    && r@[i].1@ == crumbs_of(self.current_dir@)[i].1,
    {
        let d = chars_of(self.current_dir.as_str());
        let mut out: Vec<(String, String)> = Vec::new();
        if d.len() == 0 {
            return out;
        }
        let ps = crate::paths::split_pieces(&d);
        let ghost pv = ps.deep_view();
        assert(pv == pieces(d@));
        let n = ps.len();
        let mut acc: Vec<char> = Vec::new();
        let mut i: usize = 0;
        while i < n
            invariant
                n == pv.len(),
                pv == ps.deep_view(),
                pv == pieces(self.current_dir@),
                d@ == self.current_dir@,
                d@.len() > 0,
                i <= n,
                out@.len() == i,
                i > 0 ==> acc@ == join_with(pv.take(i as int), '/'),
                forall|k: int|
                    0 <= k < i ==> (#[trigger] out@[k]).0@ == pv[k] && out@[k].1@ == join_with(
                        pv.take(k + 1),
                        '/',
                    ),
            decreases n - i,
        {
            let seg = ps[i].clone();
            assert(seg@ == pv[i as int]);
            if i == 0 {
                acc = seg.clone();
                assert(pv.take(1) =~= seq![pv[0]]);
            } else {
                acc.push('/');
                crate::text::push_all(&mut acc, &seg);
                assert(pv.take(i + 1).drop_last() =~= pv.take(i as int));
            }
            out.push((string_from_vec(&seg), string_from_vec(&acc)));
            i = i + 1;
        }
        out
    }

    /// A job has been handed to a worker: the state is busy, with no
    /// progress yet.
    pub fn job_started(&mut self)
        ensures
            final(self).busy,
            final(self).progress is None,
            final(self).status@ == "Working\u{2026}"@,
            final(self).current_dir == old(self).current_dir,
            final(self).staged@ == old(self).staged@,
    {
        self.busy = true;
        self.progress = None;
        self.status = "Working\u{2026}".to_string();
    }

    /// A worker reported progress.
    pub fn job_progress(&mut self, p: Progress)
        ensures
            final(self).progress == Some(p),
            final(self).busy == old(self).busy,
            final(self).status == old(self).status,
    {
        self.progress = Some(p);
    }

    /// Takes the messages a worker sent since the last look, in order: each
    /// report becomes the progress, each `Done` sets the status; when the
    /// batch held a `Done`, the job is over: no longer busy, and the progress
    /// is cleared.
    pub fn poll(&mut self, msgs: Vec<JobMsg>)
        ensures
            final(self).status@ == batch_status(old(self).status@, msgs@),
            batch_done(msgs@) ==> !final(self).busy && final(self).progress is None,
            !batch_done(msgs@) ==> final(self).busy == old(self).busy && final(self).progress
                == batch_progress(old(self).progress, msgs@),
            final(self).current_dir == old(self).current_dir,
            final(self).staged@ == old(self).staged@,
    {
        let ghost all = msgs@;
        let ghost st0 = self.status@;
        let ghost pr0 = self.progress;
        let mut rest = msgs;
        let mut finished = false;
        let n = rest.len();
        let mut i: usize = 0;
        assert(all.take(0) =~= Seq::<JobMsg>::empty());
        assert(all.skip(0) =~= all);
        while i < n
            invariant
                n == all.len(),
                i <= n,
                rest@ == all.skip(i as int),
                self.status@ == batch_status(st0, all.take(i as int)),
                self.progress == batch_progress(pr0, all.take(i as int)),
                finished == batch_done(all.take(i as int)),
                self.busy == old(self).busy,
                self.current_dir == old(self).current_dir,
                self.staged@ == old(self).staged@,
            decreases n - i,
        {
            assert(all.take(i + 1).drop_last() =~= all.take(i as int));
            assert(all.take(i + 1).last() == all[i as int]);
            assert(rest@[0] == all[i as int]);
            let m = rest.remove(0);
            assert(rest@ =~= all.skip(i + 1));
            match m {
                JobMsg::Progress(p) => {
                    self.progress = Some(p);
                },
                JobMsg::Done(r) => {
                    self.status = match r {
                        Ok(()) => "Done.".to_string(),
                        Err(e) => string_from_vec(
                            &concat_chars(&chars_of("Error: "), &chars_of(e.as_str())),
                        ),
                    };
                    finished = true;
                },
            }
            i = i + 1;
        }
        assert(all.take(n as int) =~= all);
        if finished {
            self.busy = false;
            self.progress = None;
        }
    }

    /// A worker finished: no longer busy, and the status says how it ended.
    pub fn job_done(&mut self, result: Result<(), String>)
        ensures
            !final(self).busy,
            final(self).progress is None,
            final(self).status@ == match result {
                Ok(()) => "Done."@,
                Err(e) => "Error: "@ + e@,
            },
            final(self).current_dir == old(self).current_dir,
            final(self).staged@ == old(self).staged@,
    {
        self.status = match result {
            Ok(()) => "Done.".to_string(),
            Err(e) => string_from_vec(&concat_chars(&chars_of("Error: "), &chars_of(e.as_str()))),
        };
        self.busy = false;
        self.progress = None;
    }

    /// Asks to build a new archive: with nothing staged the status says to
    /// add files first; otherwise the staged files and the method are handed
    /// out, to be built once an output is picked.
    pub fn start_create(&mut self) -> (r: Option<CreateJob>)
        ensures
            old(self).staged@.len() == 0 ==> (r is None && final(self).status@
                == "Add files first (drag them in or use New Archive\u{2026})."@),
            old(self).staged@.len() > 0 ==> (r matches Some(j) && j.inputs@ == old(self).staged@
                && j.method == old(self).method && final(self).status == old(self).status),
            final(self).staged@ == old(self).staged@,
            final(self).current_dir == old(self).current_dir,
            final(self).busy == old(self).busy,
    {
        if self.staged.len() == 0 {
            self.status = "Add files first (drag them in or use New Archive\u{2026}).".to_string();
            return None;
        }
        Some(CreateJob { inputs: self.staged.clone(), method: self.method })
    }

    /// Asks to extract the open archive: its selected files, or all of it;
    /// nothing when no archive is open.
    pub fn start_extract(&self, selected_only: bool) -> (r: Option<ExtractJob>)
        ensures
            match self.archive_path {
                None => r is None,
                Some(a) => r matches Some(j) && j.archive == a && (if selected_only {
                    j.names matches Some(v) && v@ == self.selected@
                } else {
                    j.names is None
                }),
            },
    {
        match &self.archive_path {
            None => None,
            Some(a) => {
                let names = if selected_only {
                    Some(self.selected.clone())
                } else {
                    None
                };
                Some(ExtractJob { archive: a.clone(), names })
            },
        }
    }
}

proof fn lemma_without_contains(s: Seq<Seq<char>>, p: Seq<char>, x: Seq<char>)
    ensures
        without(s, p).contains(x) <==> (s.contains(x) && x != p),
    decreases s.len(),
{
    if s.len() > 0 {
        let d = s.drop_last();
        lemma_without_contains(d, p, x);
        let r = without(d, p);
        if s.contains(x) && x != p {
            let k = choose|k: int| 0 <= k < s.len() && s[k] == x;
            if k < s.len() - 1 {
                assert(d[k] == x);
                if s.last() != p {
                    let j = choose|j: int| 0 <= j < r.len() && r[j] == x;
                    assert(r.push(s.last())[j] == x);
                }
            } else if s.last() != p {
                assert(r.push(s.last())[r.len() as int] == x);
            }
        }
        if without(s, p).contains(x) {
            let w = without(s, p);
            let j = choose|j: int| 0 <= j < w.len() && w[j] == x;
            if s.last() == p || j < r.len() {
                assert(r[j] == x);
                let k = choose|k: int| 0 <= k < d.len() && d[k] == x;
                assert(s[k] == x);
            } else {
                assert(s[s.len() - 1] == x);
            }
        }
    }
}

/// Clicking a file twice leaves the same files selected as before.
pub proof fn lemma_toggle_twice(s: Seq<Seq<char>>, p: Seq<char>)
    ensures
        toggled(toggled(s, p), p).to_set() == s.to_set(),
{
    let t = toggled(s, p);
    let u = toggled(t, p);
    assert forall|x: Seq<char>| u.contains(x) <==> s.contains(x) by {
        if s.contains(p) {
            lemma_without_contains(s, p, x);
            lemma_without_contains(s, p, p);
            assert(!t.contains(p));
            if u.contains(x) && x != p {
                let j = choose|j: int| 0 <= j < u.len() && u[j] == x;
                assert(j < t.len());
                assert(t[j] == x);
            }
            if x == p {
                assert(u[t.len() as int] == p);
            }
            if s.contains(x) && x != p {
                let j = choose|j: int| 0 <= j < t.len() && t[j] == x;
                assert(u[j] == x);
            }
        } else {
            assert(t.contains(p)) by {
                assert(t[s.len() as int] == p);
            }
            lemma_without_contains(t, p, x);
            if s.contains(x) && x != p {
                let j = choose|j: int| 0 <= j < s.len() && s[j] == x;
                assert(t[j] == x);
            }
            if t.contains(x) && x != p {
                let j = choose|j: int| 0 <= j < t.len() && t[j] == x;
                if j < s.len() {
                    assert(s[j] == x);
                }
            }
        }
    }
    assert(u.to_set() =~= s.to_set());
}

proof fn lemma_last_slash_past(d: Seq<char>, n: Seq<char>)
    requires
        !n.contains('/'),
    ensures
        last_slash(d.push('/') + n) == d.len(),
    decreases n.len(),
{
    if n.len() == 0 {
        assert(d.push('/') + n =~= d.push('/'));
    } else {
        let m = n.drop_last();
        assert(!m.contains('/')) by {
            if m.contains('/') {
                let k = choose|k: int| 0 <= k < m.len() && m[k] == '/';
                assert(n[k] == '/');
            }
        }
        lemma_last_slash_past(d, m);
        assert((d.push('/') + n).drop_last() =~= d.push('/') + m);
        assert(n.last() != '/') by {
            if n.last() == '/' {
                assert(n[n.len() - 1] == '/');
            }
        }
    }
}

/// Going up from the folder `name` entered from `dir` leads back to `dir`.
pub proof fn lemma_up_after_enter(dir: Seq<char>, name: Seq<char>)
    requires
        name.len() > 0,
        !name.contains('/'),
    ensures
        folder_above(if dir.len() == 0 {
            name
        } else {
            dir.push('/') + name
        }) == dir,
    decreases name.len(),
{
    if dir.len() == 0 {
        lemma_no_slash(name);
    } else {
        lemma_last_slash_past(dir, name);
        assert((dir.push('/') + name).take(dir.len() as int) =~= dir);
    }
}

proof fn lemma_no_slash(n: Seq<char>)
    requires
        !n.contains('/'),
    ensures
        last_slash(n) == -1,
    decreases n.len(),
{
    if n.len() > 0 {
        let m = n.drop_last();
        assert(!m.contains('/')) by {
            if m.contains('/') {
                let k = choose|k: int| 0 <= k < m.len() && m[k] == '/';
                assert(n[k] == '/');
            }
        }
        lemma_no_slash(m);
        assert(n.last() != '/') by {
            if n.last() == '/' {
                assert(n[n.len() - 1] == '/');
            }
        }
    }
}

} // verus!
