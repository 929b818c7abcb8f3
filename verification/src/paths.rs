//! A model of paths as std's `Path` reads them, on Unix and on Windows: a
//! path is an optional drive prefix (Windows only, such as `C:`) and root
//! followed by its components, where `.` survives only as the first
//! component of a relative path and empty pieces between separators vanish.
//! On Windows `\` separates components as well as `/`.
use vstd::prelude::*;
use crate::text::{chars_eq, chars_of, concat_chars, push_all, string_from_vec, take_chars};

verus! {

/// Whether `c` separates path components: `/` everywhere, and `\` too on
/// Windows.
pub open spec fn is_sep(c: char, windows: bool) -> bool {
    c == '/' || (windows && c == '\\')
}

/// The separator a path is built with: `\` on Windows, `/` elsewhere.
pub open spec fn main_sep(windows: bool) -> char {
    if windows {
        '\\'
    } else {
        '/'
    }
}

/// Whether `c` is an ASCII letter.
pub open spec fn ascii_letter(c: char) -> bool {
    (65 <= (c as u32) && (c as u32) <= 90) || (97 <= (c as u32) && (c as u32) <= 122)
}

/// Whether `s` begins with a Windows drive prefix such as `C:`.
pub open spec fn has_drive(s: Seq<char>, windows: bool) -> bool {
    windows && s.len() >= 2 && s[1] == ':' && ascii_letter(s[0])
}

/// `s` after its drive prefix, if it has one.
pub open spec fn after_drive(s: Seq<char>, windows: bool) -> Seq<char> {
    if has_drive(s, windows) {
        s.skip(2)
    } else {
        s
    }
}

/// The drive prefix of `s`, or nothing.
pub open spec fn drive_text(s: Seq<char>, windows: bool) -> Seq<char> {
    if has_drive(s, windows) {
        s.take(2)
    } else {
        Seq::<char>::empty()
    }
}

/// The pieces of `s` between separators (empty pieces included).
pub open spec fn pieces_on(s: Seq<char>, windows: bool) -> Seq<Seq<char>>
    decreases s.len(),
{
    if s.len() == 0 {
        seq![Seq::<char>::empty()]
    } else {
        let p = pieces_on(s.drop_last(), windows);
        if is_sep(s.last(), windows) {
            p.push(Seq::<char>::empty())
        } else {
            p.update(p.len() - 1, p.last().push(s.last()))
        }
    }
}

/// The pieces of `s` between `/` separators (empty pieces included).
pub open spec fn pieces(s: Seq<char>) -> Seq<Seq<char>> {
    pieces_on(s, false)
}

/// The component `.`.
pub open spec fn dot() -> Seq<char> {
    seq!['.']
}

/// The component `..`.
pub open spec fn dotdot() -> Seq<char> {
    seq!['.', '.']
}

/// What one piece contributes to the component list; `first` tells whether it
/// is the path's first piece (the only place where `.` is kept).
pub open spec fn piece_comp(piece: Seq<char>, first: bool) -> Seq<Seq<char>> {
    if piece.len() == 0 || (piece == dot() && !first) {
        seq![]
    } else {
        seq![piece]
    }
}

/// The components that the pieces `ps` make up.
pub open spec fn comps_of(ps: Seq<Seq<char>>) -> Seq<Seq<char>>
    decreases ps.len(),
{
    if ps.len() == 0 {
        seq![]
    } else {
        comps_of(ps.drop_last()) + piece_comp(ps.last(), ps.len() == 1)
    }
}

/// The components of `s` after its drive prefix and root (`.` stands for the
/// current directory, `..` for the parent directory, anything else is a name).
pub open spec fn components_on(s: Seq<char>, windows: bool) -> Seq<Seq<char>> {
    comps_of(pieces_on(after_drive(s, windows), windows))
}

/// The components of a Unix path `s` after its root.
pub open spec fn components(s: Seq<char>) -> Seq<Seq<char>> {
    components_on(s, false)
}

/// Whether `s` has a root: a separator right after its drive prefix, if any.
pub open spec fn has_root_on(s: Seq<char>, windows: bool) -> bool {
    after_drive(s, windows).len() > 0 && is_sep(after_drive(s, windows)[0], windows)
}

/// Whether the Unix path `s` is absolute.
pub open spec fn has_root(s: Seq<char>) -> bool {
    has_root_on(s, false)
}

/// `parts` joined with `sep` between neighbours.
pub open spec fn join_with(parts: Seq<Seq<char>>, sep: char) -> Seq<char>
    decreases parts.len(),
{
    if parts.len() == 0 {
        seq![]
    } else if parts.len() == 1 {
        parts[0]
    } else {
        join_with(parts.drop_last(), sep).push(sep) + parts.last()
    }
}

/// The path text for a drive prefix, a root flag and a component list, built
/// with the platform's separator.
pub open spec fn render_on(
    drive: Seq<char>,
    root: bool,
    comps: Seq<Seq<char>>,
    windows: bool,
) -> Seq<char> {
    drive + (if root {
        seq![main_sep(windows)]
    } else {
        Seq::<char>::empty()
    }) + join_with(comps, main_sep(windows))
}

/// `Path::parent` under the platform's rules; none when there is no
/// component to drop.
pub open spec fn parent_on(s: Seq<char>, windows: bool) -> Option<Seq<char>> {
    let c = components_on(s, windows);
    if c.len() == 0 {
        None
    } else {
        Some(render_on(drive_text(s, windows), has_root_on(s, windows), c.drop_last(), windows))
    }
}

/// `Path::file_name` under the platform's rules: the last component when it
/// is a name.
pub open spec fn file_name_on(s: Seq<char>, windows: bool) -> Option<Seq<char>> {
    let c = components_on(s, windows);
    if c.len() > 0 && c.last() != dot() && c.last() != dotdot() {
        Some(c.last())
    } else {
        None
    }
}

/// Index of the last `.` in `name`, or -1.
pub open spec fn last_dot(name: Seq<char>) -> int
    decreases name.len(),
{
    if name.len() == 0 {
        -1
    } else if name.last() == '.' {
        name.len() - 1
    } else {
        last_dot(name.drop_last())
    }
}

/// A file name without its last extension; a name whose only dot leads it
/// (such as `.bashrc`) is its own stem.
pub open spec fn stem_of(name: Seq<char>) -> Seq<char> {
    let k = last_dot(name);
    if k <= 0 {
        name
    } else {
        name.take(k)
    }
}

/// `Path::file_stem` under the platform's rules.
pub open spec fn file_stem_on(s: Seq<char>, windows: bool) -> Option<Seq<char>> {
    match file_name_on(s, windows) {
        Some(n) => Some(stem_of(n)),
        None => None,
    }
}

/// `base.join(p)`, as `PathBuf::push` builds it under the platform's rules:
/// a path with a drive prefix replaces `base`, a rooted one keeps only the
/// drive of `base`, and a relative one is appended after a separator.
pub open spec fn join_path_on(base: Seq<char>, p: Seq<char>, windows: bool) -> Seq<char> {
    if has_drive(p, windows) || base.len() == 0 || (has_root_on(p, windows) && !has_drive(
        base,
        windows,
    )) {
        p
    } else if has_root_on(p, windows) {
        base.take(2) + p
    } else if is_sep(base.last(), windows) || (has_drive(base, windows) && base.len() == 2) {
        base + p
    } else {
        base.push(main_sep(windows)) + p
    }
}

/// `base.join(p)` for Unix paths.
pub open spec fn join_path(base: Seq<char>, p: Seq<char>) -> Seq<char> {
    join_path_on(base, p, false)
}

/// The parent of `s` under the platform's rules when it is not empty, else
/// `.`.
pub open spec fn parent_or_dot_on(s: Seq<char>, windows: bool) -> Seq<char> {
    match parent_on(s, windows) {
        Some(p) => if p.len() > 0 {
            p
        } else {
            dot()
        },
        None => dot(),
    }
}

/// The components that are names (neither `.` nor `..`).
pub open spec fn names_only(c: Seq<Seq<char>>) -> Seq<Seq<char>>
    decreases c.len(),
{
    if c.len() == 0 {
        seq![]
    } else {
        names_only(c.drop_last()) + (if c.last() == dot() || c.last() == dotdot() {
            Seq::<Seq<char>>::empty()
        } else {
            seq![c.last()]
        })
    }
}

/// Whether two drive prefixes name the same drive: both absent, or the same
/// letter in either case.
pub open spec fn same_drive(a: Seq<char>, b: Seq<char>) -> bool {
    ||| a.len() == 0 && b.len() == 0
    ||| a.len() == 2 && b.len() == 2 && same_letter(a[0], b[0])
}

/// Whether two characters are equal, ASCII letters compared without case.
pub open spec fn same_letter(x: char, y: char) -> bool {
    ||| (x as u32) == (y as u32)
    ||| ascii_letter(x) && ascii_letter(y) && ((x as u32) + 32 == (y as u32) || (y as u32) + 32
        == (x as u32))
}

/// `Path::strip_prefix` under the platform's rules, as the root flag and
/// components of what remains: `base`'s drive, root and components must
/// begin `path`. A base that is empty, or only a drive that `path` shares,
/// leaves `path` whole.
pub open spec fn strip_prefix_on(path: Seq<char>, base: Seq<char>, windows: bool) -> Option<
    (bool, Seq<Seq<char>>),
> {
    let dp = drive_text(path, windows);
    let db = drive_text(base, windows);
    let rp = has_root_on(path, windows);
    let cp = components_on(path, windows);
    let rb = has_root_on(base, windows);
    let cb = components_on(base, windows);
    if !rb && cb.len() == 0 && (db.len() == 0 || same_drive(dp, db)) {
        Some((rp, cp))
    } else if same_drive(dp, db) && rb == rp && cb.len() <= cp.len() && cp.take(cb.len() as int)
        == cb {
        Some((false, cp.skip(cb.len() as int)))
    } else {
        None
    }
}

proof fn lemma_take_step<T>(s: Seq<T>, i: int)
    requires
        0 <= i < s.len(),
    ensures
        s.take(i + 1).drop_last() == s.take(i),
        s.take(i + 1).last() == s[i],
        s.take(i + 1).len() == i + 1,
{
    assert(s.take(i + 1).drop_last() =~= s.take(i));
}

proof fn lemma_dv(x: &Vec<char>)
    ensures
        x.deep_view() == x@,
{
    assert(x.deep_view() =~= x@);
}

/// A path has at least one piece.
pub proof fn lemma_pieces_nonempty_on(s: Seq<char>, windows: bool)
    ensures
        pieces_on(s, windows).len() >= 1,
    decreases s.len(),
{
    if s.len() > 0 {
        lemma_pieces_nonempty_on(s.drop_last(), windows);
    }
}

/// A Unix path has at least one piece.
pub proof fn lemma_pieces_nonempty(s: Seq<char>)
    ensures
        pieces(s).len() >= 1,
{
    lemma_pieces_nonempty_on(s, false);
}

/// Whether `c` separates path components.
pub fn is_sep_exec(c: char, windows: bool) -> (r: bool)
    ensures
        r == is_sep(c, windows),
{
    c == '/' || (windows && c == '\\')
}

/// The pieces of `s` between separators.
pub fn split_pieces_on(s: &Vec<char>, windows: bool) -> (r: Vec<Vec<char>>)
    ensures
        r.deep_view() == pieces_on(s@, windows),
{
    let n = s.len();
    let mut out: Vec<Vec<char>> = Vec::new();
    let mut cur: Vec<char> = Vec::new();
    let mut i: usize = 0;
    assert(s@.take(0) =~= Seq::<char>::empty());
    assert(out.deep_view().push(cur@) =~= pieces_on(s@.take(0), windows));
    while i < n
        invariant
            n == s@.len(),
            i <= n,
            pieces_on(s@.take(i as int), windows) == out.deep_view().push(cur@),
        decreases n - i,
    {
        proof {
            lemma_take_step(s@, i as int);
        }
        let c = s[i];
        let ghost old_out = out.deep_view();
        let ghost old_cur = cur@;
        proof {
            lemma_dv(&cur);
        }
        if is_sep_exec(c, windows) {
            out.push(cur);
            cur = Vec::new();
            assert(out.deep_view() =~= old_out.push(old_cur));
            assert(out.deep_view().push(cur@) =~= old_out.push(old_cur).push(Seq::<char>::empty()));
        } else {
            cur.push(c);
            assert(out.deep_view().push(cur@) =~= old_out.push(old_cur).update(
                old_out.len() as int,
                old_cur.push(c),
            ));
        }
        i = i + 1;
    }
    assert(s@.take(n as int) =~= s@);
    let ghost before = out.deep_view();
    proof {
        lemma_dv(&cur);
    }
    out.push(cur);
    assert(out.deep_view() =~= before.push(cur@));
    out
}

/// The pieces of `s` between `/` separators.
pub fn split_pieces(s: &Vec<char>) -> (r: Vec<Vec<char>>)
    ensures
        r.deep_view() == pieces(s@),
{
    split_pieces_on(s, false)
}

/// Whether `s` begins with a Windows drive prefix such as `C:`.
pub fn has_drive_exec(s: &Vec<char>, windows: bool) -> (r: bool)
    ensures
        r == has_drive(s@, windows),
{
    if windows && s.len() >= 2 && s[1] == ':' {
        let v = s[0] as u32;
        (65 <= v && v <= 90) || (97 <= v && v <= 122)
    } else {
        false
    }
}

/// `s` after its drive prefix, if it has one.
pub fn after_drive_exec(s: &Vec<char>, windows: bool) -> (r: Vec<char>)
    ensures
        r@ == after_drive(s@, windows),
{
    let mut out: Vec<char> = Vec::new();
    let start: usize = if has_drive_exec(s, windows) {
        2
    } else {
        0
    };
    let mut i: usize = start;
    while i < s.len()
        invariant
            start <= i <= s@.len(),
            out@ == s@.subrange(start as int, i as int),
        decreases s@.len() - i,
    {
        out.push(s[i]);
        i = i + 1;
        assert(out@ =~= s@.subrange(start as int, i as int));
    }
    assert(s@.subrange(start as int, s@.len() as int) =~= after_drive(s@, windows));
    out
}

fn is_dot(p: &Vec<char>) -> (r: bool)
    ensures
        r == (p@ == dot()),
{
    if p.len() == 1 && p[0] == '.' {
        assert(p@ =~= dot());
        true
    } else {
        false
    }
}

fn is_dotdot(p: &Vec<char>) -> (r: bool)
    ensures
        r == (p@ == dotdot()),
{
    if p.len() == 2 && p[0] == '.' && p[1] == '.' {
        assert(p@ =~= dotdot());
        true
    } else {
        false
    }
}

/// The components of the path `s`.
pub fn path_components_on(s: &Vec<char>, windows: bool) -> (r: Vec<Vec<char>>)
    ensures
        r.deep_view() == components_on(s@, windows),
{
    let body = after_drive_exec(s, windows);
    let ps = split_pieces_on(&body, windows);
    let n = ps.len();
    let mut out: Vec<Vec<char>> = Vec::new();
    let mut j: usize = 0;
    assert(ps.deep_view().take(0) =~= Seq::<Seq<char>>::empty());
    while j < n
        invariant
            n == ps.deep_view().len(),
            j <= n,
            out.deep_view() == comps_of(ps.deep_view().take(j as int)),
        decreases n - j,
    {
        proof {
            lemma_take_step(ps.deep_view(), j as int);
        }
        let ghost before = out.deep_view();
        let p = &ps[j];
        assert(p@ == ps.deep_view()[j as int]);
        if p.len() == 0 || (is_dot(p) && j != 0) {
            assert(out.deep_view() =~= before + piece_comp(p@, j + 1 == 1));
        } else {
            out.push(p.clone());
            assert(out.deep_view() =~= before + piece_comp(p@, j + 1 == 1));
        }
        j = j + 1;
    }
    assert(ps.deep_view().take(n as int) =~= ps.deep_view());
    out
}

/// Whether the path text `s` has a root.
pub fn path_has_root_on(s: &Vec<char>, windows: bool) -> (r: bool)
    ensures
        r == has_root_on(s@, windows),
{
    let start: usize = if has_drive_exec(s, windows) {
        2
    } else {
        0
    };
    s.len() > start && is_sep_exec(s[start], windows)
}

/// The first `k` of `parts` joined with `sep`.
pub fn join_exec(parts: &Vec<Vec<char>>, k: usize, sep: char) -> (r: Vec<char>)
    requires
        k <= parts.deep_view().len(),
    ensures
        r@ == join_with(parts.deep_view().take(k as int), sep),
{
    let mut out: Vec<char> = Vec::new();
    if k == 0 {
        assert(parts.deep_view().take(0) =~= Seq::<Seq<char>>::empty());
        return out;
    }
    push_all(&mut out, &parts[0]);
    assert(out@ =~= parts.deep_view()[0]);
    assert(join_with(parts.deep_view().take(1), sep) == parts.deep_view().take(1)[0]);
    let mut i: usize = 1;
    while i < k
        invariant
            k <= parts.deep_view().len(),
            1 <= i <= k,
            out@ == join_with(parts.deep_view().take(i as int), sep),
        decreases k - i,
    {
        proof {
            lemma_take_step(parts.deep_view(), i as int);
        }
        out.push(sep);
        push_all(&mut out, &parts[i]);
        i = i + 1;
    }
    out
}

/// `Path::file_name` on path text, under the platform's rules.
pub fn file_name_on_exec(s: &Vec<char>, windows: bool) -> (r: Option<Vec<char>>)
    ensures
        match r {
            Some(p) => file_name_on(s@, windows) == Some(p@),
            None => file_name_on(s@, windows) is None,
        },
{
    let c = path_components_on(s, windows);
    if c.len() == 0 {
        return None;
    }
    let last = &c[c.len() - 1];
    assert(last@ == c.deep_view().last());
    if is_dot(last) || is_dotdot(last) {
        None
    } else {
        Some(last.clone())
    }
}

/// The path text for a drive prefix, `root` and the first `k` components.
pub fn render_on_exec(
    drive: &Vec<char>,
    root: bool,
    comps: &Vec<Vec<char>>,
    k: usize,
    windows: bool,
) -> (r: Vec<char>)
    requires
        k <= comps.deep_view().len(),
    ensures
        r@ == render_on(drive@, root, comps.deep_view().take(k as int), windows),
{
    let sep = if windows {
        '\\'
    } else {
        '/'
    };
    let body = join_exec(comps, k, sep);
    let mut out: Vec<char> = drive.clone();
    assert(out@ == drive@);
    if root {
        out.push(sep);
    }
    push_all(&mut out, &body);
    assert(out@ =~= render_on(drive@, root, comps.deep_view().take(k as int), windows));
    out
}

/// `Path::parent` on path text, under the platform's rules.
pub fn parent_on_exec(s: &Vec<char>, windows: bool) -> (r: Option<Vec<char>>)
    ensures
        match r {
            Some(p) => parent_on(s@, windows) == Some(p@),
            None => parent_on(s@, windows) is None,
        },
{
    let c = path_components_on(s, windows);
    if c.len() == 0 {
        None
    } else {
        let root = path_has_root_on(s, windows);
        let drive: Vec<char> = if has_drive_exec(s, windows) {
            take_chars(s, 2)
        } else {
            Vec::new()
        };
        assert(drive@ =~= drive_text(s@, windows));
        let p = render_on_exec(&drive, root, &c, c.len() - 1, windows);
        assert(c.deep_view().take(c.len() - 1) =~= c.deep_view().drop_last());
        Some(p)
    }
}

/// The stem of a file name.
pub fn stem_exec(name: &Vec<char>) -> (r: Vec<char>)
    ensures
        r@ == stem_of(name@),
{
    let n = name.len();
    let mut i: usize = n;
    assert(name@.take(n as int) =~= name@);
    while i > 0
        invariant
            n == name@.len(),
            i <= n,
            last_dot(name@) == last_dot(name@.take(i as int)),
            forall|k: int| i <= k < n ==> name@[k] != '.',
        decreases i,
    {
        proof {
            lemma_take_step(name@, i - 1);
        }
        if name[i - 1] == '.' {
            assert(last_dot(name@.take(i as int)) == i - 1);
            if i - 1 == 0 {
                return name.clone();
            }
            return take_chars(name, i - 1);
        }
        i = i - 1;
    }
    assert(name@.take(0) =~= Seq::<char>::empty());
    name.clone()
}

/// `Path::file_stem` on path text, under the platform's rules.
pub fn file_stem_on_exec(s: &Vec<char>, windows: bool) -> (r: Option<Vec<char>>)
    ensures
        match r {
            Some(p) => file_stem_on(s@, windows) == Some(p@),
            None => file_stem_on(s@, windows) is None,
        },
{
    match file_name_on_exec(s, windows) {
        Some(n) => Some(stem_exec(&n)),
        None => None,
    }
}

/// `base.join(p)` on path text, under the platform's rules.
pub fn join_path_on_exec(base: &Vec<char>, p: &Vec<char>, windows: bool) -> (r: Vec<char>)
    ensures
        r@ == join_path_on(base@, p@, windows),
{
    let pd = has_drive_exec(p, windows);
    let pr = path_has_root_on(p, windows);
    let bd = has_drive_exec(base, windows);
    if pd || base.len() == 0 || (pr && !bd) {
        p.clone()
    } else if pr {
        concat_chars(&take_chars(base, 2), p)
    } else if is_sep_exec(base[base.len() - 1], windows) || (bd && base.len() == 2) {
        concat_chars(base, p)
    } else {
        let mut b = base.clone();
        b.push(if windows {
            '\\'
        } else {
            '/'
        });
        concat_chars(&b, p)
    }
}

/// The parent of `s` under the platform's rules when it is not empty, else
/// `.`.
pub fn parent_or_dot_on_exec(s: &Vec<char>, windows: bool) -> (r: Vec<char>)
    ensures
        r@ == parent_or_dot_on(s@, windows),
{
    match parent_on_exec(s, windows) {
        Some(p) => if p.len() > 0 {
            p
        } else {
            let mut d: Vec<char> = Vec::new();
            d.push('.');
            assert(d@ =~= dot());
            d
        },
        None => {
            let mut d: Vec<char> = Vec::new();
            d.push('.');
            assert(d@ =~= dot());
            d
        },
    }
}

/// The components that are names.
pub fn names_only_exec(c: &Vec<Vec<char>>) -> (r: Vec<Vec<char>>)
    ensures
        r.deep_view() == names_only(c.deep_view()),
{
    let n = c.len();
    let mut out: Vec<Vec<char>> = Vec::new();
    let mut j: usize = 0;
    assert(c.deep_view().take(0) =~= Seq::<Seq<char>>::empty());
    while j < n
        invariant
            n == c.deep_view().len(),
            j <= n,
            out.deep_view() == names_only(c.deep_view().take(j as int)),
        decreases n - j,
    {
        proof {
            lemma_take_step(c.deep_view(), j as int);
        }
        let ghost before = out.deep_view();
        let p = &c[j];
        assert(p@ == c.deep_view()[j as int]);
        if is_dot(p) || is_dotdot(p) {
            assert(out.deep_view() =~= names_only(c.deep_view().take(j + 1)));
        } else {
            out.push(p.clone());
            assert(out.deep_view() =~= names_only(c.deep_view().take(j + 1)));
        }
        j = j + 1;
    }
    assert(c.deep_view().take(n as int) =~= c.deep_view());
    out
}

/// The drive prefix of the path text `s`, or nothing.
pub fn drive_text_exec(s: &Vec<char>, windows: bool) -> (r: Vec<char>)
    ensures
        r@ == drive_text(s@, windows),
{
    if has_drive_exec(s, windows) {
        let d = take_chars(s, 2);
        assert(d@ =~= s@.take(2));
        d
    } else {
        Vec::new()
    }
}

/// Whether two drive prefixes name the same drive.
fn same_drive_exec(a: &Vec<char>, b: &Vec<char>) -> (r: bool)
    ensures
        r == same_drive(a@, b@),
{
    if a.len() == 0 && b.len() == 0 {
        true
    } else if a.len() == 2 && b.len() == 2 {
        let x = a[0] as u32;
        let y = b[0] as u32;
        let xl = (65 <= x && x <= 90) || (97 <= x && x <= 122);
        let yl = (65 <= y && y <= 90) || (97 <= y && y <= 122);
        x == y || (xl && yl && (x + 32 == y || y + 32 == x))
    } else {
        false
    }
}

/// `Path::strip_prefix` on path text under the platform's rules, giving the
/// remaining components.
pub fn strip_prefix_on_exec(path: &Vec<char>, base: &Vec<char>, windows: bool) -> (r: Option<
    Vec<Vec<char>>,
>)
    ensures
        match r {
            Some(c) => strip_prefix_on(path@, base@, windows) matches Some((_root, x)) && x
                == c.deep_view(),
            None => strip_prefix_on(path@, base@, windows) is None,
        },
{
    let dp = drive_text_exec(path, windows);
    let db = drive_text_exec(base, windows);
    let rp = path_has_root_on(path, windows);
    let cp = path_components_on(path, windows);
    let rb = path_has_root_on(base, windows);
    let cb = path_components_on(base, windows);
    let same = same_drive_exec(&dp, &db);
    if !rb && cb.len() == 0 && (db.len() == 0 || same) {
        return Some(cp);
    }
    if !same || rb != rp || cb.len() > cp.len() {
        return None;
    }
    let m = cb.len();
    let mut i: usize = 0;
    while i < m
        invariant
            m == cb.deep_view().len(),
            m <= cp.deep_view().len(),
            i <= m,
            cp.deep_view() == components_on(path@, windows),
            cb.deep_view() == components_on(base@, windows),
            rb == has_root_on(base@, windows),
            rp == has_root_on(path@, windows),
            db@ == drive_text(base@, windows),
            same == same_drive(dp@, db@),
            dp@ == drive_text(path@, windows),
            same,
            rb == rp,
            !(!rb && m == 0 && (db@.len() == 0 || same)),
            forall|k: int| 0 <= k < i ==> cp.deep_view()[k] == cb.deep_view()[k],
        decreases m - i,
    {
        assert(cp[i as int].deep_view() =~= cp[i as int]@);
        assert(cb[i as int].deep_view() =~= cb[i as int]@);
        if !chars_eq(&cp[i], &cb[i]) {
            assert(cp.deep_view().take(m as int)[i as int] != cb.deep_view()[i as int]);
            assert(cp.deep_view().take(m as int) != cb.deep_view());
            return None;
        }
        i = i + 1;
    }
    assert(cp.deep_view().take(m as int) =~= cb.deep_view());
    let mut rest: Vec<Vec<char>> = Vec::new();
    let mut j: usize = m;
    while j < cp.len()
        invariant
            m <= j <= cp.deep_view().len(),
            rest.deep_view() == cp.deep_view().subrange(m as int, j as int),
        decreases cp.deep_view().len() - j,
    {
        let ghost before = rest.deep_view();
        let x = cp[j].clone();
        assert(x.deep_view() =~= cp.deep_view()[j as int]);
        let ghost xv = x.deep_view();
        rest.push(x);
        assert(rest.deep_view() =~= before.push(xv));
        assert(rest.deep_view() =~= cp.deep_view().subrange(m as int, j + 1));
        j = j + 1;
    }
    assert(cp.deep_view().subrange(m as int, cp.deep_view().len() as int) =~= cp.deep_view().skip(
        m as int,
    ));
    Some(rest)
}

/// Pieces that are all names make up the components unchanged.
pub proof fn lemma_comps_of_names(ps: Seq<Seq<char>>)
    requires
        forall|k: int| 0 <= k < ps.len() ==> (#[trigger] ps[k]).len() > 0 && ps[k] != dot(),
    ensures
        comps_of(ps) == ps,
    decreases ps.len(),
{
    if ps.len() > 0 {
        lemma_comps_of_names(ps.drop_last());
        assert(comps_of(ps.drop_last()) + seq![ps.last()] =~= ps);
    }
}

/// Whether walking the components `c`, starting `d` levels down, never goes
/// above the start.
pub open spec fn depth_ok(c: Seq<Seq<char>>, d: int) -> bool
    decreases c.len(),
{
    if c.len() == 0 {
        true
    } else if c[0] == dotdot() {
        d >= 1 && depth_ok(c.skip(1), d - 1)
    } else if c[0] == dot() {
        depth_ok(c.skip(1), d)
    } else {
        depth_ok(c.skip(1), d + 1)
    }
}

/// Whether `p` is a relative path that never climbs above where it starts:
/// it has no drive prefix and no root, and no run of its leading components
/// has more `..` than names.
pub open spec fn stays_inside_on(p: Seq<char>, windows: bool) -> bool {
    !has_drive(p, windows) && !has_root_on(p, windows) && depth_ok(components_on(p, windows), 0)
}

/// Components without `..` never climb above where they start.
pub proof fn lemma_depth_without_dotdot(c: Seq<Seq<char>>, d: int)
    requires
        d >= 0,
        !c.contains(dotdot()),
    ensures
        depth_ok(c, d),
    decreases c.len(),
{
    if c.len() > 0 {
        assert(c[0] != dotdot());
        assert(!c.skip(1).contains(dotdot())) by {
            if c.skip(1).contains(dotdot()) {
                let k = choose|k: int| 0 <= k < c.skip(1).len() && c.skip(1)[k] == dotdot();
                assert(c[k + 1] == dotdot());
            }
        }
        if c[0] == dot() {
            lemma_depth_without_dotdot(c.skip(1), d);
        } else {
            lemma_depth_without_dotdot(c.skip(1), d + 1);
        }
    }
}

/// Whether a path taken from an archive would leave the directory it is
/// extracted into: it has a drive prefix or a root, or a `..` component.
pub open spec fn escapes_on(p: Seq<char>, windows: bool) -> bool {
    has_drive(p, windows) || has_root_on(p, windows) || components_on(p, windows).contains(dotdot())
}

/// `escapes_on` for Unix paths.
pub open spec fn escapes(p: Seq<char>) -> bool {
    escapes_on(p, false)
}

/// Whether the path `p` has a drive prefix, a root or a `..` component.
pub fn escapes_on_exec(p: &Vec<char>, windows: bool) -> (r: bool)
    ensures
        r == escapes_on(p@, windows),
{
    if has_drive_exec(p, windows) || path_has_root_on(p, windows) {
        return true;
    }
    let c = path_components_on(p, windows);
    let n = c.len();
    let mut i: usize = 0;
    while i < n
        invariant
            n == c.deep_view().len(),
            c.deep_view() == components_on(p@, windows),
            i <= n,
            forall|k: int| 0 <= k < i ==> c.deep_view()[k] != dotdot(),
        decreases n - i,
    {
        let found = is_dotdot(&c[i]);
        assert(c[i as int]@ == c.deep_view()[i as int]);
        if found {
            assert(components_on(p@, windows)[i as int] == dotdot());
            return true;
        }
        i = i + 1;
    }
    assert(!components_on(p@, windows).contains(dotdot()));
    false
}

/// The archive name of a relative path under the platform's rules: its name
/// components joined with `/`, with any drive, root, `.` and `..` dropped.
pub open spec fn archive_name_on(path: Seq<char>, windows: bool) -> Seq<char> {
    join_with(names_only(components_on(path, windows)), '/')
}

/// Converts a relative path to a forward-slash archive name, dropping any
/// `.` and `..` components; `windows` says whether `\` and drive prefixes
/// are read as on Windows.
pub fn to_archive_name(path: &str, windows: bool) -> (r: String)
    ensures
        r@ == archive_name_on(path@, windows),
{
    let s = chars_of(path);
    let c = path_components_on(&s, windows);
    let names = names_only_exec(&c);
    let j = join_exec(&names, names.len(), '/');
    assert(names.deep_view().take(names.len() as int) =~= names.deep_view());
    string_from_vec(&j)
}

/// Whether `x` holds no separator.
pub open spec fn no_sep(x: Seq<char>, windows: bool) -> bool {
    forall|j: int| 0 <= j < x.len() ==> !is_sep(#[trigger] x[j], windows)
}

/// The pieces of a path hold no separator.
pub proof fn lemma_pieces_no_sep(s: Seq<char>, windows: bool)
    ensures
        forall|k: int|
            0 <= k < pieces_on(s, windows).len() ==> no_sep(#[trigger] pieces_on(s, windows)[k], windows),
    decreases s.len(),
{
    if s.len() > 0 {
        let d = s.drop_last();
        lemma_pieces_no_sep(d, windows);
        lemma_pieces_nonempty_on(d, windows);
        let p = pieces_on(d, windows);
        let ps = pieces_on(s, windows);
        if !is_sep(s.last(), windows) {
            let q = p.last().push(s.last());
            assert(no_sep(p[p.len() - 1], windows));
            assert(no_sep(q, windows)) by {
                assert forall|j: int| 0 <= j < q.len() implies !is_sep(#[trigger] q[j], windows) by {
                    if j < p.last().len() {
                        assert(q[j] == p[p.len() - 1][j]);
                    }
                }
            }
            assert forall|k: int| 0 <= k < ps.len() implies no_sep(#[trigger] ps[k], windows) by {
                if k < p.len() - 1 {
                    assert(ps[k] == p[k]);
                }
            }
        } else {
            assert forall|k: int| 0 <= k < ps.len() implies no_sep(#[trigger] ps[k], windows) by {
                if k < p.len() {
                    assert(ps[k] == p[k]);
                } else {
                    assert(ps[k] == Seq::<char>::empty());
                }
            }
        }
    }
}

/// What a component list made from pieces without separators looks like:
/// its components are not empty, hold no separator, and only the first can
/// be `.`.
pub open spec fn comps_shape(c: Seq<Seq<char>>, windows: bool) -> bool {
    forall|k: int|
        0 <= k < c.len() ==> {
            &&& (#[trigger] c[k]).len() > 0
            &&& no_sep(c[k], windows)
            &&& (k > 0 ==> c[k] != dot())
        }
}

proof fn lemma_comps_of_shape(ps: Seq<Seq<char>>, windows: bool)
    requires
        forall|k: int| 0 <= k < ps.len() ==> no_sep(#[trigger] ps[k], windows),
    ensures
        comps_shape(comps_of(ps), windows),
        ps.len() <= 1 ==> comps_of(ps).len() <= 1,
    decreases ps.len(),
{
    if ps.len() > 0 {
        let d = ps.drop_last();
        assert forall|k: int| 0 <= k < d.len() implies no_sep(#[trigger] d[k], windows) by {
            assert(d[k] == ps[k]);
        }
        lemma_comps_of_shape(d, windows);
        let c = comps_of(d);
        let t = piece_comp(ps.last(), ps.len() == 1);
        let all = comps_of(ps);
        assert(no_sep(ps[ps.len() - 1], windows));
        if ps.len() == 1 {
            assert(d.len() == 0);
            assert(c.len() == 0);
        }
        assert forall|k: int| 0 <= k < all.len() implies {
            &&& (#[trigger] all[k]).len() > 0
            &&& no_sep(all[k], windows)
            &&& (k > 0 ==> all[k] != dot())
        } by {
            if k < c.len() {
                assert(all[k] == c[k]);
            } else {
                assert(all[k] == t[k - c.len()]);
                assert(t[k - c.len()] == ps[ps.len() - 1]);
            }
        }
    }
}

/// The components of a path are not empty, hold no separator, and only the
/// first can be `.`.
pub proof fn lemma_components_shape(s: Seq<char>, windows: bool)
    ensures
        comps_shape(components_on(s, windows), windows),
{
    lemma_pieces_no_sep(after_drive(s, windows), windows);
    lemma_comps_of_shape(pieces_on(after_drive(s, windows), windows), windows);
}

/// Appending text without separators extends the last piece.
proof fn lemma_pieces_append(x: Seq<char>, y: Seq<char>, windows: bool)
    requires
        no_sep(y, windows),
    ensures
        pieces_on(x + y, windows) == pieces_on(x, windows).update(
            pieces_on(x, windows).len() - 1,
            pieces_on(x, windows).last() + y,
        ),
    decreases y.len(),
{
    lemma_pieces_nonempty_on(x, windows);
    let p = pieces_on(x, windows);
    if y.len() == 0 {
        assert(x + y =~= x);
        assert(p.last() + y =~= p.last());
        assert(p.update(p.len() - 1, p.last() + y) =~= p);
    } else {
        let yd = y.drop_last();
        assert(no_sep(yd, windows)) by {
            assert forall|j: int| 0 <= j < yd.len() implies !is_sep(#[trigger] yd[j], windows) by {
                assert(yd[j] == y[j]);
            }
        }
        lemma_pieces_append(x, yd, windows);
        assert((x + y).drop_last() =~= x + yd);
        assert((x + y).last() == y[y.len() - 1]);
        assert(!is_sep(y[y.len() - 1], windows));
        assert((p.last() + yd).push(y.last()) =~= p.last() + y);
        assert(pieces_on(x + y, windows) =~= p.update(p.len() - 1, p.last() + y));
    }
}

/// Joining pieces that are not empty and hold no separator with the
/// platform's separator gives back those pieces.
pub proof fn lemma_join_pieces(m: Seq<Seq<char>>, windows: bool)
    requires
        m.len() > 0,
        forall|k: int| 0 <= k < m.len() ==> no_sep(#[trigger] m[k], windows),
    ensures
        pieces_on(join_with(m, main_sep(windows)), windows) == m,
    decreases m.len(),
{
    let sep = main_sep(windows);
    if m.len() == 1 {
        lemma_pieces_append(Seq::<char>::empty(), m[0], windows);
        assert(Seq::<char>::empty() + m[0] =~= m[0]);
        assert(pieces_on(m[0], windows) =~= m);
    } else {
        let d = m.drop_last();
        assert forall|k: int| 0 <= k < d.len() implies no_sep(#[trigger] d[k], windows) by {
            assert(d[k] == m[k]);
        }
        lemma_join_pieces(d, windows);
        let j = join_with(d, sep);
        assert(j.push(sep).drop_last() =~= j);
        assert(pieces_on(j.push(sep), windows) == d.push(Seq::<char>::empty()));
        assert(no_sep(m[m.len() - 1], windows));
        lemma_pieces_append(j.push(sep), m.last(), windows);
        assert(Seq::<char>::empty() + m.last() =~= m.last());
        assert(d.push(Seq::<char>::empty()).update(d.len() as int, m.last()) =~= m);
    }
}

/// Pieces that are not empty, of which only the first may be `.`, make up
/// the components unchanged.
pub proof fn lemma_comps_of_pieces(ps: Seq<Seq<char>>)
    requires
        forall|k: int|
            0 <= k < ps.len() ==> (#[trigger] ps[k]).len() > 0 && (k > 0 ==> ps[k] != dot()),
    ensures
        comps_of(ps) == ps,
    decreases ps.len(),
{
    if ps.len() > 0 {
        let d = ps.drop_last();
        assert forall|k: int|
            0 <= k < d.len() implies (#[trigger] d[k]).len() > 0 && (k > 0 ==> d[k] != dot()) by {
            assert(d[k] == ps[k]);
        }
        lemma_comps_of_pieces(d);
        assert(ps[ps.len() - 1] == ps.last());
        assert(comps_of(d) + seq![ps.last()] =~= ps);
    }
}

/// The text `parts` joined with `sep` begins with the first part.
pub proof fn lemma_join_first(parts: Seq<Seq<char>>, sep: char)
    requires
        parts.len() > 0,
        parts[0].len() > 0,
    ensures
        join_with(parts, sep).len() > 0,
        join_with(parts, sep)[0] == parts[0][0],
    decreases parts.len(),
{
    if parts.len() > 1 {
        let d = parts.drop_last();
        assert(d[0] == parts[0]);
        lemma_join_first(d, sep);
        let j = join_with(d, sep);
        assert((j.push(sep) + parts.last())[0] == j[0]);
    }
}

/// Every character of `parts` joined with `sep` is `sep` or a character of
/// one of the parts; so a property of all of those holds of all of it.
pub proof fn lemma_join_chars(parts: Seq<Seq<char>>, sep: char, ok: spec_fn(char) -> bool)
    requires
        ok(sep),
        forall|k: int, j: int| 0 <= k < parts.len() && 0 <= j < parts[k].len() ==> ok(#[trigger] parts[k][j]),
    ensures
        forall|j: int| 0 <= j < join_with(parts, sep).len() ==> ok(#[trigger] join_with(parts, sep)[j]),
    decreases parts.len(),
{
    if parts.len() == 1 {
        assert forall|j: int| 0 <= j < join_with(parts, sep).len() implies ok(
            #[trigger] join_with(parts, sep)[j],
        ) by {
            assert(join_with(parts, sep)[j] == parts[0][j]);
        }
    } else if parts.len() > 1 {
        let d = parts.drop_last();
        assert forall|k: int, j: int| 0 <= k < d.len() && 0 <= j < d[k].len() implies ok(
            #[trigger] d[k][j],
        ) by {
            assert(d[k] == parts[k]);
        }
        lemma_join_chars(d, sep, ok);
        let jd = join_with(d, sep);
        let l = parts.last();
        let all = jd.push(sep) + l;
        assert forall|j: int| 0 <= j < all.len() implies ok(#[trigger] all[j]) by {
            if j < jd.len() {
                assert(all[j] == jd[j]);
            } else if j == jd.len() {
                assert(all[j] == sep);
            } else {
                assert(all[j] == parts[parts.len() - 1][j - jd.len() - 1]);
            }
        }
    }
}

/// Walking two component lists that agree on where `.` and `..` stand
/// climbs alike.
pub proof fn lemma_depth_same(a: Seq<Seq<char>>, b: Seq<Seq<char>>, d: int)
    requires
        a.len() == b.len(),
        forall|k: int|
            0 <= k < a.len() ==> ((#[trigger] a[k] == dot()) <==> b[k] == dot()) && (a[k]
                == dotdot() <==> b[k] == dotdot()),
    ensures
        depth_ok(a, d) == depth_ok(b, d),
    decreases a.len(),
{
    if a.len() > 0 {
        assert forall|k: int| 0 <= k < a.skip(1).len() implies ((#[trigger] a.skip(1)[k] == dot())
            <==> b.skip(1)[k] == dot()) && (a.skip(1)[k] == dotdot() <==> b.skip(1)[k]
            == dotdot()) by {
            assert(a.skip(1)[k] == a[k + 1]);
            assert(b.skip(1)[k] == b[k + 1]);
        }
        assert(a[0] == dot() <==> b[0] == dot());
        lemma_depth_same(a.skip(1), b.skip(1), d - 1);
        lemma_depth_same(a.skip(1), b.skip(1), d);
        lemma_depth_same(a.skip(1), b.skip(1), d + 1);
    }
}

/// A path that does not escape stays inside.
pub proof fn lemma_not_escaping_stays_inside_on(p: Seq<char>, windows: bool)
    requires
        !escapes_on(p, windows),
    ensures
        stays_inside_on(p, windows),
{
    lemma_depth_without_dotdot(components_on(p, windows), 0);
}

/// Whether walking the components `c` from their start never climbs above
/// it.
pub fn depth_ok_exec(c: &Vec<Vec<char>>) -> (r: bool)
    ensures
        r == depth_ok(c.deep_view(), 0),
{
    let n = c.len();
    let mut d: usize = 0;
    let mut k: usize = 0;
    assert(c.deep_view().skip(0) =~= c.deep_view());
    while k < n
        invariant
            n == c.deep_view().len(),
            k <= n,
            d <= k,
            depth_ok(c.deep_view(), 0) == depth_ok(c.deep_view().skip(k as int), d as int),
        decreases n - k,
    {
        let ghost rest = c.deep_view().skip(k as int);
        assert(rest[0] == c.deep_view()[k as int]);
        assert(rest.skip(1) =~= c.deep_view().skip(k + 1));
        assert(c[k as int]@ == c.deep_view()[k as int]);
        if is_dotdot(&c[k]) {
            if d == 0 {
                return false;
            }
            d = d - 1;
        } else if !is_dot(&c[k]) {
            d = d + 1;
        }
        k = k + 1;
    }
    true
}

/// Whether `p` never leaves the directory it is taken relative to.
pub fn stays_inside_exec(p: &Vec<char>, windows: bool) -> (r: bool)
    ensures
        r == stays_inside_on(p@, windows),
{
    if has_drive_exec(p, windows) || path_has_root_on(p, windows) {
        return false;
    }
    depth_ok_exec(&path_components_on(p, windows))
}

/// A single name without separators, other than `..` and without a drive
/// prefix, stays inside.
pub proof fn lemma_name_stays_inside_on(x: Seq<char>, windows: bool)
    requires
        no_sep(x, windows),
        x != dotdot(),
        !has_drive(x, windows),
    ensures
        stays_inside_on(x, windows),
{
    let ps = pieces_on(x, windows);
    assert(after_drive(x, windows) == x);
    if x.len() > 0 {
        lemma_join_pieces(seq![x], windows);
        assert(join_with(seq![x], main_sep(windows)) == x);
        assert(ps == seq![x]);
        assert(ps.drop_last() =~= Seq::<Seq<char>>::empty());
        assert(ps.last() == x);
        assert(comps_of(ps) == comps_of(ps.drop_last()) + piece_comp(ps.last(), true));
        assert(components_on(x, windows) =~= seq![x]);
        assert(!is_sep(x[0], windows));
        assert(seq![x].skip(1) =~= Seq::<Seq<char>>::empty());
        assert(depth_ok(seq![x].skip(1), 0));
        assert(depth_ok(seq![x].skip(1), 1));
        assert(depth_ok(seq![x], 0));
    } else {
        assert(x =~= Seq::<char>::empty());
        assert(ps =~= seq![Seq::<char>::empty()]);
        assert(ps.drop_last() =~= Seq::<Seq<char>>::empty());
        assert(comps_of(ps) == comps_of(ps.drop_last()) + piece_comp(ps.last(), true));
        assert(components_on(x, windows) =~= Seq::<Seq<char>>::empty());
    }
}

/// Whether no component of `p` holds a `:`.
pub open spec fn comps_colon_free(p: Seq<char>, windows: bool) -> bool {
    forall|k: int, j: int|
        0 <= k < components_on(p, windows).len() && 0 <= j < components_on(p, windows)[k].len()
            ==> #[trigger] components_on(p, windows)[k][j] != ':'
}

/// A walk that never climbs above its start still does without its last step.
proof fn lemma_depth_prefix(c: Seq<Seq<char>>, d: int)
    requires
        c.len() > 0,
        depth_ok(c, d),
    ensures
        depth_ok(c.drop_last(), d),
    decreases c.len(),
{
    if c.len() > 1 {
        let e = c.drop_last();
        assert(e.skip(1) =~= c.skip(1).drop_last());
        assert(e[0] == c[0]);
        if c[0] == dotdot() {
            lemma_depth_prefix(c.skip(1), d - 1);
        } else if c[0] == dot() {
            lemma_depth_prefix(c.skip(1), d);
        } else {
            lemma_depth_prefix(c.skip(1), d + 1);
        }
    } else {
        assert(c.drop_last() =~= Seq::<Seq<char>>::empty());
    }
}

/// The parent of a path that stays inside is empty or stays inside too (on
/// Windows, given that no component holds a `:`).
pub proof fn lemma_parent_stays_inside(p: Seq<char>, windows: bool)
    requires
        stays_inside_on(p, windows),
        windows ==> comps_colon_free(p, windows),
    ensures
        parent_on(p, windows) matches Some(q) ==> q.len() == 0 || stays_inside_on(q, windows),
{
    let c = components_on(p, windows);
    if c.len() > 0 {
        let m = c.drop_last();
        let sep = main_sep(windows);
        let q = parent_on(p, windows)->Some_0;
        assert(drive_text(p, windows) =~= Seq::<char>::empty());
        assert(q =~= join_with(m, sep));
        if m.len() > 0 {
            lemma_components_shape(p, windows);
            assert forall|k: int| 0 <= k < m.len() implies no_sep(#[trigger] m[k], windows) by {
                assert(m[k] == c[k]);
            }
            assert(forall|k: int|
                0 <= k < m.len() ==> (#[trigger] m[k]).len() > 0 && (k > 0 ==> m[k] != dot())) by {
                assert forall|k: int| 0 <= k < m.len() implies (#[trigger] m[k]).len() > 0 && (k > 0
                    ==> m[k] != dot()) by {
                    assert(m[k] == c[k]);
                }
            }
            lemma_join_pieces(m, windows);
            lemma_comps_of_pieces(m);
            lemma_join_first(m, sep);
            assert(m[0] == c[0]);
            assert(no_sep(m[0], windows));
            assert(!is_sep(q[0], windows));
            if windows {
                let ok = |x: char| x != ':';
                assert forall|k: int, i: int| 0 <= k < m.len() && 0 <= i < m[k].len() implies ok(
                    #[trigger] m[k][i],
                ) by {
                    assert(m[k] == c[k]);
                    assert(c[k][i] != ':');
                }
                lemma_join_chars(m, sep, ok);
                if q.len() >= 2 {
                    assert(ok(q[1]));
                }
            }
            assert(!has_drive(q, windows));
            assert(after_drive(q, windows) == q);
            assert(components_on(q, windows) == m);
            lemma_depth_prefix(c, 0);
        }
    }
}

} // verus!
