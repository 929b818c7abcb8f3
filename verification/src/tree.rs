//! The folder view of a flat archive listing: the immediate children of a
//! folder, folders first, then files, each group ordered by name.
use vstd::prelude::*;
use crate::archive::EntryInfo;
use crate::text::{chars_eq, chars_of, concat_chars, string_from_vec, take_chars};

verus! {

/// One row in the file-manager view: a file or a (possibly synthesized) folder.
#[derive(Debug)]
pub struct Node {
    pub name: String,
    pub full_path: String,
    pub is_dir: bool,
    pub size: u64,
    pub compressed: u64,
}

/// Lexicographic order on character sequences (code point by code point,
/// which is the byte order of their UTF-8 encodings).
pub open spec fn lex_lt(a: Seq<char>, b: Seq<char>) -> bool
    decreases a.len(),
{
    if a.len() == 0 {
        b.len() > 0
    } else if b.len() == 0 {
        false
    } else if a[0] != b[0] {
        a[0] < b[0]
    } else {
        lex_lt(a.drop_first(), b.drop_first())
    }
}

/// Nothing comes before itself.
pub proof fn lemma_lex_irreflexive(a: Seq<char>)
    ensures
        !lex_lt(a, a),
    decreases a.len(),
{
    if a.len() > 0 {
        lemma_lex_irreflexive(a.drop_first());
    }
}

/// The order is transitive.
pub proof fn lemma_lex_transitive(a: Seq<char>, b: Seq<char>, c: Seq<char>)
    requires
        lex_lt(a, b),
        lex_lt(b, c),
    ensures
        lex_lt(a, c),
    decreases a.len(),
{
    if a.len() > 0 && b.len() > 0 && c.len() > 0 {
        if a[0] == b[0] && b[0] == c[0] {
            lemma_lex_transitive(a.drop_first(), b.drop_first(), c.drop_first());
        }
    }
}

/// Of two different texts, one comes first.
pub proof fn lemma_lex_total(a: Seq<char>, b: Seq<char>)
    ensures
        a == b || lex_lt(a, b) || lex_lt(b, a),
    decreases a.len(),
{
    if a.len() > 0 && b.len() > 0 && a[0] == b[0] {
        lemma_lex_total(a.drop_first(), b.drop_first());
        if a.drop_first() == b.drop_first() {
            assert(a =~= seq![a[0]] + a.drop_first());
            assert(b =~= seq![b[0]] + b.drop_first());
        }
    } else if a.len() == 0 && b.len() == 0 {
        assert(a =~= b);
    }
}

/// Two texts do not each come before the other.
pub proof fn lemma_lex_asymmetric(a: Seq<char>, b: Seq<char>)
    requires
        lex_lt(a, b),
    ensures
        !lex_lt(b, a),
{
    if lex_lt(b, a) {
        lemma_lex_transitive(a, b, a);
        lemma_lex_irreflexive(a);
    }
}

/// Exec form of `lex_lt`.
pub fn lex_less(a: &Vec<char>, b: &Vec<char>) -> (r: bool)
    ensures
        r == lex_lt(a@, b@),
{
    let mut i: usize = 0;
    assert(a@.skip(0) =~= a@);
    assert(b@.skip(0) =~= b@);
    loop
        invariant
            i <= a@.len(),
            i <= b@.len(),
            lex_lt(a@, b@) == lex_lt(a@.skip(i as int), b@.skip(i as int)),
        decreases a@.len() - i,
    {
        if i == a.len() {
            return i < b.len();
        }
        if i == b.len() {
            return false;
        }
        assert(a@.skip(i as int)[0] == a@[i as int]);
        assert(b@.skip(i as int)[0] == b@[i as int]);
        if a[i] != b[i] {
            return a[i] < b[i];
        }
        assert(a@.skip(i as int).drop_first() =~= a@.skip(i + 1));
        assert(b@.skip(i as int).drop_first() =~= b@.skip(i + 1));
        i = i + 1;
    }
}

/// `s` without its trailing `/` characters.
pub open spec fn trim_slashes(s: Seq<char>) -> Seq<char>
    decreases s.len(),
{
    if s.len() > 0 && s.last() == '/' {
        trim_slashes(s.drop_last())
    } else {
        s
    }
}

/// Index of the first `/` in `s`, or its length.
pub open spec fn first_slash(s: Seq<char>) -> int
    decreases s.len(),
{
    if s.len() == 0 {
        0
    } else if s[0] == '/' {
        0
    } else {
        1 + first_slash(s.drop_first())
    }
}

/// The text that the paths under folder `dir` start with.
pub open spec fn tree_prefix(dir: Seq<char>) -> Seq<char> {
    if dir.len() == 0 {
        Seq::<char>::empty()
    } else {
        dir.push('/')
    }
}

/// What an entry named `name` (marked as a directory or not) shows as
/// directly under the folder whose paths start with `prefix`: nothing, a
/// folder (`true`) or a file (`false`), with the name it shows. An entry is a
/// folder when it is marked as one or its name ends with `/`.
pub open spec fn classify(name: Seq<char>, is_dir: bool, prefix: Seq<char>) -> Option<(bool, Seq<char>)> {
    let path = trim_slashes(name);
    if path.len() == 0 || !(prefix.len() <= path.len() && path.take(prefix.len() as int)
        == prefix) {
        None
    } else {
        let rest = path.skip(prefix.len() as int);
        let k = first_slash(rest);
        if rest.len() == 0 {
            None
        } else if k < rest.len() {
            Some((true, rest.take(k)))
        } else if is_dir || (name.len() > 0 && name.last() == '/') {
            Some((true, rest))
        } else {
            Some((false, rest))
        }
    }
}

/// The folder names that the entries show under the folder.
pub open spec fn dir_names(es: Seq<EntryInfo>, prefix: Seq<char>) -> Set<Seq<char>>
    decreases es.len(),
{
    if es.len() == 0 {
        Set::empty()
    } else {
        let s = dir_names(es.drop_last(), prefix);
        match classify(es.last().name@, es.last().is_dir, prefix) {
            Some((true, n)) => s.insert(n),
            _ => s,
        }
    }
}

/// The files that the entries show under the folder, in listing order, as
/// (name, size, compressed size).
pub open spec fn file_rows(es: Seq<EntryInfo>, prefix: Seq<char>) -> Seq<(Seq<char>, u64, u64)>
    decreases es.len(),
{
    if es.len() == 0 {
        seq![]
    } else {
        let s = file_rows(es.drop_last(), prefix);
        let e = es.last();
        match classify(e.name@, e.is_dir, prefix) {
            Some((false, n)) => s.push((n, e.size, e.compressed)),
            _ => s,
        }
    }
}

/// Where a row goes in rows sorted by name so that it follows every row
/// whose name is not greater than its own.
pub open spec fn insert_pos(v: Seq<(Seq<char>, u64, u64)>, x: (Seq<char>, u64, u64)) -> int
    decreases v.len(),
{
    if v.len() == 0 {
        0
    } else if lex_lt(x.0, v[0].0) {
        0
    } else {
        1 + insert_pos(v.drop_first(), x)
    }
}

/// The rows stably sorted by name: rows with equal names keep their order.
pub open spec fn sort_rows(s: Seq<(Seq<char>, u64, u64)>) -> Seq<(Seq<char>, u64, u64)>
    decreases s.len(),
{
    if s.len() == 0 {
        s
    } else {
        let v = sort_rows(s.drop_last());
        v.insert(insert_pos(v, s.last()), s.last())
    }
}

/// Rows in non-decreasing name order.
pub open spec fn rows_sorted(v: Seq<(Seq<char>, u64, u64)>) -> bool {
    forall|i: int, j: int| 0 <= i < j < v.len() ==> !lex_lt(#[trigger] v[j].0, #[trigger] v[i].0)
}

proof fn lemma_insert_pos(v: Seq<(Seq<char>, u64, u64)>, x: (Seq<char>, u64, u64))
    ensures
        0 <= insert_pos(v, x) <= v.len(),
        forall|i: int| 0 <= i < insert_pos(v, x) ==> !lex_lt(x.0, #[trigger] v[i].0),
        insert_pos(v, x) < v.len() ==> lex_lt(x.0, v[insert_pos(v, x)].0),
    decreases v.len(),
{
    if v.len() > 0 && !lex_lt(x.0, v[0].0) {
        lemma_insert_pos(v.drop_first(), x);
        assert forall|i: int| 0 <= i < insert_pos(v, x) implies !lex_lt(x.0, #[trigger] v[i].0) by {
            if i > 0 {
                assert(v[i] == v.drop_first()[i - 1]);
            }
        }
    }
}

/// Stable insertion keeps rows sorted.
proof fn lemma_sort_rows_sorted(s: Seq<(Seq<char>, u64, u64)>)
    ensures
        rows_sorted(sort_rows(s)),
        sort_rows(s).len() == s.len(),
    decreases s.len(),
{
    if s.len() > 0 {
        lemma_sort_rows_sorted(s.drop_last());
        let v = sort_rows(s.drop_last());
        let x = s.last();
        let p = insert_pos(v, x);
        lemma_insert_pos(v, x);
        let w = v.insert(p, x);
        assert forall|i: int, j: int| 0 <= i < j < w.len() implies !lex_lt(
            #[trigger] w[j].0,
            #[trigger] w[i].0,
        ) by {
            if j < p {
                assert(w[i] == v[i] && w[j] == v[j]);
            } else if j == p {
                assert(w[j] == x && w[i] == v[i]);
            } else if i == p {
                assert(w[i] == x && w[j] == v[j - 1]);
                lemma_lex_asymmetric(x.0, v[p].0);
                if j - 1 > p {
                    if lex_lt(v[j - 1].0, x.0) {
                        lemma_lex_transitive(v[j - 1].0, x.0, v[p].0);
                    }
                }
            } else if i < p {
                assert(w[i] == v[i] && w[j] == v[j - 1]);
            } else {
                assert(w[i] == v[i - 1] && w[j] == v[j - 1]);
            }
        }
    }
}

/// A row of the file part, while it is being sorted.
struct Row {
    name: Vec<char>,
    size: u64,
    compressed: u64,
}

spec fn row_view(r: Row) -> (Seq<char>, u64, u64) {
    (r.name@, r.size, r.compressed)
}

spec fn rows_view(v: Seq<Row>) -> Seq<(Seq<char>, u64, u64)> {
    v.map_values(|r: Row| row_view(r))
}

fn trim_slashes_exec(s: &Vec<char>) -> (r: Vec<char>)
    ensures
        r@ == trim_slashes(s@),
{
    let mut k: usize = s.len();
    assert(s@.take(k as int) =~= s@);
    while k > 0 && s[k - 1] == '/'
        invariant
            k <= s@.len(),
            trim_slashes(s@) == trim_slashes(s@.take(k as int)),
        decreases k,
    {
        assert(s@.take(k as int).drop_last() =~= s@.take(k - 1));
        k = k - 1;
    }
    take_chars(s, k)
}

fn first_slash_exec(s: &Vec<char>) -> (r: usize)
    ensures
        r == first_slash(s@),
        r <= s@.len(),
{
    let n = s.len();
    let mut k: usize = 0;
    assert(s@.skip(0) =~= s@);
    while k < n && s[k] != '/'
        invariant
            n == s@.len(),
            k <= n,
            first_slash(s@) == k + first_slash(s@.skip(k as int)),
        decreases n - k,
    {
        assert(s@.skip(k as int).drop_first() =~= s@.skip(k + 1));
        k = k + 1;
    }
    k
}

fn skip_chars(v: &Vec<char>, k: usize) -> (r: Vec<char>)
    requires
        k <= v@.len(),
    ensures
        r@ == v@.skip(k as int),
{
    let mut out: Vec<char> = Vec::new();
    let mut i: usize = k;
    while i < v.len()
        invariant
            k <= i <= v@.len(),
            out@ == v@.subrange(k as int, i as int),
        decreases v@.len() - i,
    {
        out.push(v[i]);
        i = i + 1;
        assert(out@ =~= v@.subrange(k as int, i as int));
    }
    assert(out@ =~= v@.skip(k as int));
    out
}

fn starts_with_chars(s: &Vec<char>, p: &Vec<char>) -> (r: bool)
    ensures
        r == (p@.len() <= s@.len() && s@.take(p@.len() as int) == p@),
{
    if p.len() > s.len() {
        return false;
    }
    let t = take_chars(s, p.len());
    chars_eq(&t, p)
}

/// Exec form of `classify`.
fn classify_exec(name: &Vec<char>, is_dir: bool, prefix: &Vec<char>) -> (r: Option<(bool, Vec<char>)>)
    ensures
        match r {
            Some((d, n)) => classify(name@, is_dir, prefix@) == Some((d, n@)),
            None => classify(name@, is_dir, prefix@) is None,
        },
{
    let path = trim_slashes_exec(name);
    if path.len() == 0 || !starts_with_chars(&path, prefix) {
        return None;
    }
    let rest = skip_chars(&path, prefix.len());
    if rest.len() == 0 {
        return None;
    }
    let k = first_slash_exec(&rest);
    if k < rest.len() {
        Some((true, take_chars(&rest, k)))
    } else if is_dir || (name.len() > 0 && name[name.len() - 1] == '/') {
        Some((true, rest))
    } else {
        Some((false, rest))
    }
}

/// Folder names, strictly ascending.
spec fn names_ascending(v: Seq<Seq<char>>) -> bool {
    forall|i: int, j: int| 0 <= i < j < v.len() ==> lex_lt(#[trigger] v[i], #[trigger] v[j])
}

/// Adds `x` to the strictly ascending folder names, unless it is there.
fn insert_dir(v: &mut Vec<Vec<char>>, x: Vec<char>)
    requires
        names_ascending(old(v).deep_view()),
    ensures
        names_ascending(final(v).deep_view()),
        forall|y: Seq<char>| #[trigger] final(v).deep_view().contains(y) <==> (old(
            v,
        ).deep_view().contains(y) || y == x@),
{
    let ghost old_v = v.deep_view();
    let n = v.len();
    let mut p: usize = 0;
    while p < n && lex_less(&v[p], &x)
        invariant
            n == v.deep_view().len(),
            v.deep_view() == old_v,
            p <= n,
            forall|k: int| 0 <= k < p ==> lex_lt(#[trigger] old_v[k], x@),
        decreases n - p,
    {
        assert(v[p as int].deep_view() =~= v[p as int]@);
        p = p + 1;
    }
    if p < n {
        assert(v[p as int].deep_view() =~= v[p as int]@);
        assert(!lex_lt(old_v[p as int], x@));
        if chars_eq(&v[p], &x) {
            assert forall|y: Seq<char>| #[trigger] v.deep_view().contains(y) <==> (old_v.contains(y)
                || y == x@) by {
                if y == x@ {
                    assert(old_v[p as int] == y);
                }
            }
            return;
        }
        proof {
            lemma_lex_total(old_v[p as int], x@);
        }
    }
    let ghost xv = x@;
    assert(x.deep_view() =~= x@);
    v.insert(p, x);
    let ghost w = v.deep_view();
    assert(w =~= old_v.insert(p as int, xv));
    assert forall|i: int, j: int| 0 <= i < j < w.len() implies lex_lt(
        #[trigger] w[i],
        #[trigger] w[j],
    ) by {
        if j < p {
        } else if j == p {
            assert(w[i] == old_v[i]);
        } else if i == p {
            assert(w[j] == old_v[j - 1]);
            if j - 1 > p {
                lemma_lex_transitive(xv, old_v[p as int], old_v[j - 1]);
            }
        } else if i < p {
            assert(w[i] == old_v[i] && w[j] == old_v[j - 1]);
            lemma_lex_transitive(old_v[i], xv, old_v[p as int]);
            if j - 1 > p {
                lemma_lex_transitive(old_v[i], old_v[p as int], old_v[j - 1]);
            }
        } else {
            assert(w[i] == old_v[i - 1] && w[j] == old_v[j - 1]);
        }
    }
    assert forall|y: Seq<char>| #[trigger] w.contains(y) <==> (old_v.contains(y) || y == xv) by {
        if w.contains(y) {
            let k = choose|k: int| 0 <= k < w.len() && w[k] == y;
            if k < p {
                assert(old_v[k] == y);
            } else if k > p {
                assert(old_v[k - 1] == y);
            }
        }
        if old_v.contains(y) {
            let k = choose|k: int| 0 <= k < old_v.len() && old_v[k] == y;
            if k < p {
                assert(w[k] == y);
            } else {
                assert(w[k + 1] == y);
            }
        }
        if y == xv {
            assert(w[p as int] == y);
        }
    }
}

/// Adds a row after every row whose name is not greater than its own.
fn insert_row(v: &mut Vec<Row>, x: Row)
    ensures
        rows_view(final(v)@) == rows_view(old(v)@).insert(
            insert_pos(rows_view(old(v)@), row_view(x)),
            row_view(x),
        ),
{
    let ghost rv = rows_view(v@);
    let ghost xv = row_view(x);
    let n = v.len();
    let mut p: usize = 0;
    assert(rv.skip(0) =~= rv);
    while p < n && !lex_less(&x.name, &v[p].name)
        invariant
            n == v@.len(),
            rv == rows_view(v@),
            xv == row_view(x),
            p <= n,
            insert_pos(rv, xv) == p + insert_pos(rv.skip(p as int), xv),
        decreases n - p,
    {
        assert(rv.skip(p as int).drop_first() =~= rv.skip(p + 1));
        assert(rv.skip(p as int)[0] == rv[p as int]);
        p = p + 1;
    }
    if p < n {
        assert(rv.skip(p as int)[0] == rv[p as int]);
    }
    v.insert(p, x);
    assert(rows_view(v@) =~= rv.insert(p as int, xv));
}

/// Immediate children of `dir` ("" = root): folders first, then files, each
/// group sorted by name. Folders are synthesized from path prefixes, and
/// explicit folder entries (marked as directories, or named with a trailing
/// `/`) are shown as folders and not listed twice.
pub fn children(entries: &[EntryInfo], dir: &str) -> (r: Vec<Node>)
    ensures
        ({
            let pfx = tree_prefix(dir@);
            let rows = sort_rows(file_rows(entries@, pfx));
            let nd = r@.len() - rows.len();
            &&& r@.len() >= rows.len()
            &&& forall|i: int|
                0 <= i < nd ==> {
                    &&& #[trigger] r@[i].is_dir
                    &&& r@[i].size == 0
                    &&& r@[i].compressed == 0
                    &&& r@[i].full_path@ == pfx + r@[i].name@
                }
            &&& forall|i: int, j: int|
                0 <= i < j < nd ==> lex_lt(#[trigger] r@[i].name@, #[trigger] r@[j].name@)
            &&& forall|y: Seq<char>|
                #[trigger] dir_names(entries@, pfx).contains(y) <==> exists|i: int|
                    0 <= i < nd && r@[i].name@ == y
            &&& forall|k: int|
                0 <= k < rows.len() ==> {
                    &&& !(#[trigger] r@[nd + k]).is_dir
                    &&& r@[nd + k].name@ == rows[k].0
                    &&& r@[nd + k].size == rows[k].1
                    &&& r@[nd + k].compressed == rows[k].2
                    &&& r@[nd + k].full_path@ == pfx + rows[k].0
                }
            &&& rows_sorted(rows)
        }),
{
    let d = chars_of(dir);
    let prefix: Vec<char> = if d.len() == 0 {
        Vec::new()
    } else {
        let mut p = d.clone();
        p.push('/');
        p
    };
    assert(prefix@ =~= tree_prefix(dir@));
    let ghost pfx = prefix@;
    let mut dirs: Vec<Vec<char>> = Vec::new();
    let mut files: Vec<Row> = Vec::new();
    let n = entries.len();
    let mut i: usize = 0;
    assert(entries@.take(0) =~= Seq::<EntryInfo>::empty());
    while i < n
        invariant
            n == entries@.len(),
            i <= n,
            pfx == prefix@,
            names_ascending(dirs.deep_view()),
            forall|y: Seq<char>| #[trigger]
                dirs.deep_view().contains(y) <==> dir_names(entries@.take(i as int), pfx).contains(
                    y,
                ),
            rows_view(files@) == sort_rows(file_rows(entries@.take(i as int), pfx)),
        decreases n - i,
    {
        assert(entries@.take(i + 1).drop_last() =~= entries@.take(i as int));
        assert(entries@.take(i + 1).last() == entries@[i as int]);
        let e = &entries[i];
        let name = chars_of(e.name.as_str());
        match classify_exec(&name, e.is_dir, &prefix) {
            Some((true, n)) => {
                insert_dir(&mut dirs, n);
            },
            Some((false, n)) => {
                let ghost fr = file_rows(entries@.take(i as int), pfx);
                let ghost nr = (n@, e.size, e.compressed);
                assert(file_rows(entries@.take(i + 1), pfx) == fr.push(nr));
                assert(fr.push(nr).drop_last() =~= fr);
                let row = Row { name: n, size: e.size, compressed: e.compressed };
                insert_row(&mut files, row);
            },
            None => {},
        }
        i = i + 1;
    }
    assert(entries@.take(n as int) =~= entries@);
    let ghost rows = sort_rows(file_rows(entries@, pfx));
    proof {
        lemma_sort_rows_sorted(file_rows(entries@, pfx));
    }
    let mut out: Vec<Node> = Vec::new();
    let nd = dirs.len();
    let mut j: usize = 0;
    while j < nd
        invariant
            nd == dirs.deep_view().len(),
            j <= nd,
            out@.len() == j,
            pfx == prefix@,
            forall|k: int|
                0 <= k < j ==> {
                    &&& #[trigger] out@[k].is_dir
                    &&& out@[k].size == 0
                    &&& out@[k].compressed == 0
                    &&& out@[k].name@ == dirs.deep_view()[k]
                    &&& out@[k].full_path@ == pfx + out@[k].name@
                },
        decreases nd - j,
    {
        let full = concat_chars(&prefix, &dirs[j]);
        assert(dirs[j as int].deep_view() =~= dirs[j as int]@);
        out.push(
            Node {
                name: string_from_vec(&dirs[j]),
                full_path: string_from_vec(&full),
                is_dir: true,
                size: 0,
                compressed: 0,
            },
        );
        j = j + 1;
    }
    let nf = files.len();
    let mut k: usize = 0;
    while k < nf
        invariant
            nf == files@.len(),
            rows_view(files@) == rows,
            k <= nf,
            out@.len() == nd + k,
            pfx == prefix@,
            forall|m: int|
                0 <= m < nd ==> {
                    &&& #[trigger] out@[m].is_dir
                    &&& out@[m].size == 0
                    &&& out@[m].compressed == 0
                    &&& out@[m].name@ == dirs.deep_view()[m]
                    &&& out@[m].full_path@ == pfx + out@[m].name@
                },
            forall|m: int|
                0 <= m < k ==> {
                    &&& !(#[trigger] out@[nd + m]).is_dir
                    &&& out@[nd + m].name@ == rows[m].0
                    &&& out@[nd + m].size == rows[m].1
                    &&& out@[nd + m].compressed == rows[m].2
                    &&& out@[nd + m].full_path@ == pfx + rows[m].0
                },
        decreases nf - k,
    {
        let f = &files[k];
        assert(row_view(files@[k as int]) == rows[k as int]);
        let full = concat_chars(&prefix, &f.name);
        out.push(
            Node {
                name: string_from_vec(&f.name),
                full_path: string_from_vec(&full),
                is_dir: false,
                size: f.size,
                compressed: f.compressed,
            },
        );
        k = k + 1;
    }
    assert(rows.len() == nf);
    assert(out@.len() - rows.len() == nd);
    assert forall|y: Seq<char>| #[trigger] dir_names(entries@, pfx).contains(y) implies exists|m: int|
        0 <= m < nd && out@[m].name@ == y by {
        assert(dirs.deep_view().contains(y));
        let m = choose|m: int| 0 <= m < nd && dirs.deep_view()[m] == y;
        assert(out@[m].is_dir);
        assert(out@[m].name@ == y);
    }
    assert forall|y: Seq<char>|
        (exists|m: int| 0 <= m < nd && out@[m].name@ == y) implies #[trigger] dir_names(
        entries@,
        pfx,
    ).contains(y) by {
        let m = choose|m: int| 0 <= m < nd && out@[m].name@ == y;
        assert(out@[m].is_dir);
        assert(dirs.deep_view()[m] == y);
        assert(dirs.deep_view().contains(y));
    }
    assert forall|i: int, j: int| 0 <= i < j < nd implies lex_lt(
        #[trigger] out@[i].name@,
        #[trigger] out@[j].name@,
    ) by {
        assert(out@[i].is_dir);
        assert(out@[j].is_dir);
    }
    assert(forall|k: int|
        0 <= k < rows.len() ==> {
            &&& !(#[trigger] out@[nd + k]).is_dir
            &&& out@[nd + k].name@ == rows[k].0
        });
    assert(rows_sorted(rows));
    out
}

} // verus!
