//! Names of archive entries: the name an input path is stored under, and the
//! relative path an entry is extracted to (made legal on Windows).
use vstd::prelude::*;
use crate::paths::{
    after_drive, comps_colon_free, comps_of, components_on, dot, dotdot, drive_text, has_drive,
    has_drive_exec, has_root_on, is_sep, join_exec, join_with, lemma_components_shape,
    lemma_comps_of_pieces, lemma_depth_same, lemma_join_chars, lemma_join_first, lemma_join_pieces,
    names_only, names_only_exec, no_sep, parent_on, parent_on_exec, path_components_on,
    path_has_root_on, piece_comp, pieces_on, render_on, render_on_exec, stays_inside_on,
    strip_prefix_on, strip_prefix_on_exec,
};
use crate::text::{chars_of, ends_with_lower_exec, lower, lower_seq, string_from_vec, take_chars};

verus! {

/// The character Windows accepts in place of `c` in a file name.
pub open spec fn win_char(c: char) -> char {
    if win_forbidden(c) {
        '_'
    } else {
        c
    }
}

/// `name` with every character Windows forbids replaced by `_`.
pub open spec fn win_cleaned(name: Seq<char>) -> Seq<char> {
    name.map_values(|c: char| win_char(c))
}

/// Index of the first `.` in `s`, or its length.
pub open spec fn first_dot(s: Seq<char>) -> int
    decreases s.len(),
{
    if s.len() == 0 {
        0
    } else if s[0] == '.' {
        0
    } else {
        1 + first_dot(s.drop_first())
    }
}

/// Windows' reserved device names, lower-cased.
pub open spec fn reserved_names() -> Seq<Seq<char>> {
    seq![
        "con"@,
        "prn"@,
        "aux"@,
        "nul"@,
        "com1"@,
        "com2"@,
        "com3"@,
        "com4"@,
        "com5"@,
        "com6"@,
        "com7"@,
        "com8"@,
        "com9"@,
        "lpt1"@,
        "lpt2"@,
        "lpt3"@,
        "lpt4"@,
        "lpt5"@,
        "lpt6"@,
        "lpt7"@,
        "lpt8"@,
        "lpt9"@,
    ]
}

/// Whether `stem` is a reserved device name, ignoring ASCII case.
pub open spec fn is_reserved(stem: Seq<char>) -> bool {
    exists|i: int| 0 <= i < 22 && lower_seq(stem) == #[trigger] reserved_names()[i]
}

/// A single path component made safe to create on Windows: forbidden
/// characters become `_`, a reserved device stem gets a leading `_`, a
/// trailing dot or space gets a trailing `_`, and an empty name becomes `_`.
pub open spec fn windows_safe_name(name: Seq<char>) -> Seq<char> {
    let c = win_cleaned(name);
    let c1 = if is_reserved(c.take(first_dot(c))) {
        seq!['_'] + c
    } else {
        c
    };
    let c2 = if c1.len() > 0 && (c1.last() == '.' || c1.last() == ' ') {
        c1.push('_')
    } else {
        c1
    };
    if c2.len() == 0 {
        seq!['_']
    } else {
        c2
    }
}

/// Whether Windows forbids `c` in a file name.
pub open spec fn win_forbidden(c: char) -> bool {
    c == '<' || c == '>' || c == ':' || c == '"' || c == '|' || c == '?' || c == '*' || (c as u32)
        < 0x20
}

/// Whether `n` is a legal Windows file name: not empty, no forbidden
/// character, not ending with a dot or a space, and no reserved device name
/// before its first dot.
pub open spec fn windows_legal(n: Seq<char>) -> bool {
    &&& n.len() > 0
    &&& forall|k: int| 0 <= k < n.len() ==> !win_forbidden(#[trigger] n[k])
    &&& n.last() != '.'
    &&& n.last() != ' '
    &&& !is_reserved(n.take(first_dot(n)))
}

proof fn lemma_reserved_shape()
    ensures
        forall|i: int|
            0 <= i < 22 ==> {
                &&& (#[trigger] reserved_names()[i]).len() >= 3
                &&& reserved_names()[i][0] != '_'
                &&& !reserved_names()[i].contains('_')
            },
{
    reveal_strlit("con");
    reveal_strlit("prn");
    reveal_strlit("aux");
    reveal_strlit("nul");
    reveal_strlit("com1");
    reveal_strlit("com2");
    reveal_strlit("com3");
    reveal_strlit("com4");
    reveal_strlit("com5");
    reveal_strlit("com6");
    reveal_strlit("com7");
    reveal_strlit("com8");
    reveal_strlit("com9");
    reveal_strlit("lpt1");
    reveal_strlit("lpt2");
    reveal_strlit("lpt3");
    reveal_strlit("lpt4");
    reveal_strlit("lpt5");
    reveal_strlit("lpt6");
    reveal_strlit("lpt7");
    reveal_strlit("lpt8");
    reveal_strlit("lpt9");
    assert forall|i: int| 0 <= i < 22 implies {
        &&& (#[trigger] reserved_names()[i]).len() >= 3
        &&& reserved_names()[i][0] != '_'
        &&& !reserved_names()[i].contains('_')
    } by {
        let r = reserved_names()[i];
        assert(r.len() >= 3);
        if r.contains('_') {
            let k = choose|k: int| 0 <= k < r.len() && r[k] == '_';
            assert(r[k] != '_');
        }
    }
}

proof fn lemma_first_dot_bounds(s: Seq<char>)
    ensures
        0 <= first_dot(s) <= s.len(),
        forall|k: int| 0 <= k < first_dot(s) ==> s[k] != '.',
        first_dot(s) < s.len() ==> s[first_dot(s)] == '.',
    decreases s.len(),
{
    if s.len() > 0 && s[0] != '.' {
        lemma_first_dot_bounds(s.drop_first());
        assert forall|k: int| 0 <= k < first_dot(s) implies s[k] != '.' by {
            if k > 0 {
                assert(s[k] == s.drop_first()[k - 1]);
            }
        }
    }
}

/// Text holding a `_` is no reserved device name.
proof fn lemma_underscore_not_reserved(s: Seq<char>, k: int)
    requires
        0 <= k < s.len(),
        s[k] == '_',
    ensures
        !is_reserved(s),
{
    lemma_reserved_shape();
    if is_reserved(s) {
        let i = choose|i: int| 0 <= i < 22 && lower_seq(s) == #[trigger] reserved_names()[i];
        assert(lower_seq(s)[k] == '_');
        assert(reserved_names()[i].contains('_'));
    }
}

/// What `sanitize_windows_name` makes of any name is a legal Windows file
/// name.
pub proof fn lemma_safe_name_is_legal(name: Seq<char>)
    ensures
        windows_legal(windows_safe_name(name)),
{
    let c = win_cleaned(name);
    let c1 = if is_reserved(c.take(first_dot(c))) {
        seq!['_'] + c
    } else {
        c
    };
    let c2 = if c1.len() > 0 && (c1.last() == '.' || c1.last() == ' ') {
        c1.push('_')
    } else {
        c1
    };
    let r = windows_safe_name(name);
    assert forall|k: int| 0 <= k < c.len() implies !win_forbidden(#[trigger] c[k]) by {}
    assert forall|k: int| 0 <= k < c1.len() implies !win_forbidden(#[trigger] c1[k]) by {
        if is_reserved(c.take(first_dot(c))) && k > 0 {
            assert(c1[k] == c[k - 1]);
        }
    }
    assert forall|k: int| 0 <= k < c2.len() implies !win_forbidden(#[trigger] c2[k]) by {
        if k < c1.len() {
            assert(c2[k] == c1[k]);
        }
    }
    assert forall|k: int| 0 <= k < r.len() implies !win_forbidden(#[trigger] r[k]) by {}
    lemma_first_dot_bounds(r);
    lemma_first_dot_bounds(c);
    let st = r.take(first_dot(r));
    if is_reserved(c.take(first_dot(c))) {
        assert(r[0] == '_');
        assert(first_dot(r) >= 1);
        assert(st[0] == '_');
        lemma_underscore_not_reserved(st, 0);
    } else if c2.len() == 0 {
        assert(r =~= seq!['_']);
        assert(st[0] == '_');
        lemma_underscore_not_reserved(st, 0);
    } else if c1.len() > 0 && (c1.last() == '.' || c1.last() == ' ') {
        if first_dot(c) < c.len() {
            lemma_first_dot_prefix(c, c2);
            assert(st =~= c.take(first_dot(c)));
        } else {
            lemma_first_dot_prefix(c, c2);
            assert(first_dot(r) == r.len());
            assert(st[st.len() - 1] == '_');
            lemma_underscore_not_reserved(st, st.len() - 1);
        }
    } else {
        assert(st =~= c.take(first_dot(c)));
    }
}

/// A name that is already legal on Windows is kept as it is.
pub proof fn lemma_safe_name_keeps_legal(name: Seq<char>)
    requires
        windows_legal(name),
    ensures
        windows_safe_name(name) == name,
{
    let c = win_cleaned(name);
    assert(c =~= name) by {
        assert forall|k: int| 0 <= k < name.len() implies c[k] == name[k] by {
            assert(!win_forbidden(name[k]));
        }
    }
    assert(name.last() == name[name.len() - 1]);
}

/// Making a name safe twice changes nothing more than making it safe once.
pub proof fn lemma_safe_name_idempotent(name: Seq<char>)
    ensures
        windows_safe_name(windows_safe_name(name)) == windows_safe_name(name),
{
    lemma_safe_name_is_legal(name);
    lemma_safe_name_keeps_legal(windows_safe_name(name));
}

/// Appending a character other than `.` to a text keeps its first dot, or
/// moves it to the new end when there was none.
proof fn lemma_first_dot_prefix(c: Seq<char>, d: Seq<char>)
    requires
        d == c.push('_'),
    ensures
        first_dot(c) < c.len() ==> first_dot(d) == first_dot(c),
        first_dot(c) == c.len() ==> first_dot(d) == d.len(),
    decreases c.len(),
{
    if c.len() > 0 {
        assert(d[0] == c[0]);
        if c[0] != '.' {
            assert(d.drop_first() =~= c.drop_first().push('_'));
            lemma_first_dot_prefix(c.drop_first(), d.drop_first());
        }
    } else {
        assert(d.drop_first() =~= Seq::<char>::empty());
        assert(d[0] == '_');
        assert(first_dot(d.drop_first()) == 0);
    }
}

/// A component as Windows-safe extraction keeps it: `.` and `..` unchanged,
/// names made safe.
pub open spec fn safe_component(c: Seq<char>) -> Seq<char> {
    if c == dot() || c == dotdot() {
        c
    } else {
        windows_safe_name(c)
    }
}

/// The relative path an entry named `p` is extracted to: unchanged, or on
/// Windows rebuilt from its drive prefix, root and components (split at `/`
/// and `\`) with each name made safe, joined with `\`.
pub open spec fn sanitized(p: Seq<char>, windows: bool) -> Seq<char> {
    if windows {
        render_on(
            drive_text(p, true),
            has_root_on(p, true),
            components_on(p, true).map_values(|c: Seq<char>| safe_component(c)),
            true,
        )
    } else {
        p
    }
}

/// A name without separators keeps none after being made safe.
proof fn lemma_safe_name_no_sep(name: Seq<char>)
    requires
        no_sep(name, true),
    ensures
        no_sep(windows_safe_name(name), true),
{
    let c = win_cleaned(name);
    let c1 = if is_reserved(c.take(first_dot(c))) {
        seq!['_'] + c
    } else {
        c
    };
    let c2 = if c1.len() > 0 && (c1.last() == '.' || c1.last() == ' ') {
        c1.push('_')
    } else {
        c1
    };
    assert forall|k: int| 0 <= k < c.len() implies !is_sep(#[trigger] c[k], true) by {
        assert(c[k] == win_char(name[k]));
    }
    assert forall|k: int| 0 <= k < c1.len() implies !is_sep(#[trigger] c1[k], true) by {
        if is_reserved(c.take(first_dot(c))) && k > 0 {
            assert(c1[k] == c[k - 1]);
        }
    }
    assert forall|k: int| 0 <= k < c2.len() implies !is_sep(#[trigger] c2[k], true) by {
        if k < c1.len() {
            assert(c2[k] == c1[k]);
        }
    }
}

/// On Windows a component made safe is `.` or `..` exactly when it was.
proof fn lemma_safe_component_kind(c: Seq<char>)
    ensures
        safe_component(c) == dot() <==> c == dot(),
        safe_component(c) == dotdot() <==> c == dotdot(),
        safe_component(c).len() > 0 || c.len() == 0,
{
    if c != dot() && c != dotdot() {
        lemma_safe_name_is_legal(c);
        let r = windows_safe_name(c);
        assert(r.last() != '.');
        assert(dot().last() == '.');
        assert(dotdot().last() == '.');
    }
}

/// A path that stays inside still does after it is sanitized: on Windows
/// its components are made safe, but none becomes a drive, a root, `.` or
/// `..`, none gains a separator, and none holds a `:`.
pub proof fn lemma_sanitized_stays_inside(p: Seq<char>, windows: bool)
    requires
        stays_inside_on(p, windows),
    ensures
        stays_inside_on(sanitized(p, windows), windows),
        windows ==> comps_colon_free(sanitized(p, windows), windows),
{
    if windows {
        let c = components_on(p, true);
        let m = c.map_values(|x: Seq<char>| safe_component(x));
        lemma_components_shape(p, true);
        assert forall|k: int| 0 <= k < m.len() implies {
            &&& (#[trigger] m[k]).len() > 0
            &&& no_sep(m[k], true)
            &&& (k > 0 ==> m[k] != dot())
            &&& (m[k] == dot() <==> c[k] == dot())
            &&& (m[k] == dotdot() <==> c[k] == dotdot())
            &&& forall|j: int| 0 <= j < m[k].len() ==> #[trigger] m[k][j] != ':'
        } by {
            assert(m[k] == safe_component(c[k]));
            lemma_safe_component_kind(c[k]);
            if c[k] != dot() && c[k] != dotdot() {
                lemma_safe_name_no_sep(c[k]);
                lemma_safe_name_is_legal(c[k]);
                assert forall|j: int| 0 <= j < m[k].len() implies #[trigger] m[k][j] != ':' by {
                    assert(!win_forbidden(m[k][j]));
                }
            } else {
                assert forall|j: int| 0 <= j < m[k].len() implies #[trigger] m[k][j] != ':' by {
                    assert(m[k][j] == '.');
                }
            }
        }
        let out = sanitized(p, true);
        let j = join_with(m, '\\');
        assert(drive_text(p, true) =~= Seq::<char>::empty());
        assert(out =~= j);
        if m.len() == 0 {
            assert(j.len() == 0);
            assert(after_drive(j, true) == j);
            let ps = pieces_on(j, true);
            assert(ps =~= seq![Seq::<char>::empty()]);
            assert(ps.drop_last() =~= Seq::<Seq<char>>::empty());
            assert(comps_of(ps) =~= comps_of(ps.drop_last()) + piece_comp(ps.last(), true));
            assert(components_on(j, true) =~= Seq::<Seq<char>>::empty());
            assert(c.len() == 0);
        } else {
            lemma_join_first(m, '\\');
            let ok = |x: char| x != ':';
            assert forall|k: int, i: int| 0 <= k < m.len() && 0 <= i < m[k].len() implies ok(
                #[trigger] m[k][i],
            ) by {}
            lemma_join_chars(m, '\\', ok);
            if j.len() >= 2 {
                assert(ok(j[1]));
            }
            assert(!has_drive(j, true));
            assert(!is_sep(m[0][0], true));
            assert(!has_root_on(j, true));
            assert forall|k: int| 0 <= k < m.len() implies no_sep(#[trigger] m[k], true) by {}
            lemma_join_pieces(m, true);
            assert(forall|k: int| 0 <= k < m.len() ==> (#[trigger] m[k]).len() > 0 && (k > 0 ==> m[k] != dot()));
            lemma_comps_of_pieces(m);
            assert(components_on(j, true) == m);
            lemma_depth_same(m, c, 0);
            assert(comps_colon_free(out, true));
        }
    }
}

fn reserved_name(i: usize) -> (r: &'static str)
    requires
        i < 22,
    ensures
        r@ == reserved_names()[i as int],
{
    match i {
        0 => "con",
        1 => "prn",
        2 => "aux",
        3 => "nul",
        4 => "com1",
        5 => "com2",
        6 => "com3",
        7 => "com4",
        8 => "com5",
        9 => "com6",
        10 => "com7",
        11 => "com8",
        12 => "com9",
        13 => "lpt1",
        14 => "lpt2",
        15 => "lpt3",
        16 => "lpt4",
        17 => "lpt5",
        18 => "lpt6",
        19 => "lpt7",
        20 => "lpt8",
        _ => "lpt9",
    }
}

fn reserved_exec(stem: &Vec<char>) -> (r: bool)
    ensures
        r == is_reserved(stem@),
{
    let mut i: usize = 0;
    while i < 22
        invariant
            i <= 22,
            forall|k: int| 0 <= k < i ==> lower_seq(stem@) != #[trigger] reserved_names()[k],
        decreases 22 - i,
    {
        let r = chars_of(reserved_name(i));
        let ghost ls = lower_seq(stem@);
        assert(ls.len() == stem@.len());
        assert(ls.subrange(0, ls.len() as int) =~= ls);
        if stem.len() == r.len() && ends_with_lower_exec(stem, &r) {
            return true;
        }
        assert(lower_seq(stem@) != reserved_names()[i as int]);
        i = i + 1;
    }
    false
}

fn win_char_exec(c: char) -> (r: char)
    ensures
        r == win_char(c),
{
    if c == '<' || c == '>' || c == ':' || c == '"' || c == '|' || c == '?' || c == '*' || (c as u32)
        < 0x20 {
        '_'
    } else {
        c
    }
}

/// Make a single path component safe to create on Windows.
pub fn sanitize_windows_name(name: &str) -> (r: String)
    ensures
        r@ == windows_safe_name(name@),
{
    let s = chars_of(name);
    let n = s.len();
    let mut cleaned: Vec<char> = Vec::new();
    let mut i: usize = 0;
    while i < n
        invariant
            n == s@.len(),
            i <= n,
            cleaned@ == win_cleaned(s@.take(i as int)),
        decreases n - i,
    {
        cleaned.push(win_char_exec(s[i]));
        i = i + 1;
        assert(cleaned@ =~= win_cleaned(s@.take(i as int)));
    }
    assert(s@.take(n as int) =~= s@);
    let ghost c = cleaned@;
    assert(c.skip(0) =~= c);
    // The stem: the text before the first dot.
    let mut k: usize = 0;
    while k < n && cleaned[k] != '.'
        invariant
            n == cleaned@.len(),
            k <= n,
            c == cleaned@,
            first_dot(c) == k + first_dot(c.skip(k as int)),
        decreases n - k,
    {
        assert(c.skip(k as int).drop_first() =~= c.skip(k + 1));
        k = k + 1;
    }
    assert(first_dot(c.skip(k as int)) == 0);
    let mut stem: Vec<char> = Vec::new();
    let mut j: usize = 0;
    while j < k
        invariant
            k <= n,
            n == cleaned@.len(),
            j <= k,
            stem@ == cleaned@.take(j as int),
        decreases k - j,
    {
        stem.push(cleaned[j]);
        j = j + 1;
        assert(stem@ =~= cleaned@.take(j as int));
    }
    let mut out: Vec<char>;
    if reserved_exec(&stem) {
        out = Vec::new();
        out.push('_');
        crate::text::push_all(&mut out, &cleaned);
        assert(out@ =~= seq!['_'] + c);
    } else {
        out = cleaned;
    }
    if out.len() > 0 && (out[out.len() - 1] == '.' || out[out.len() - 1] == ' ') {
        out.push('_');
    }
    if out.len() == 0 {
        out.push('_');
        assert(out@ =~= seq!['_']);
    }
    string_from_vec(&out)
}

/// Exec form of `safe_component` on characters.
fn safe_component_exec(c: &Vec<char>) -> (r: Vec<char>)
    ensures
        r@ == safe_component(c@),
{
    if (c.len() == 1 && c[0] == '.') || (c.len() == 2 && c[0] == '.' && c[1] == '.') {
        if c.len() == 1 {
            assert(c@ =~= dot());
        } else {
            assert(c@ =~= dotdot());
        }
        c.clone()
    } else {
        assert(c@ != dot() && c@ != dotdot());
        let text = string_from_vec(c);
        let safe = sanitize_windows_name(text.as_str());
        chars_of(safe.as_str())
    }
}

/// The relative path an entry is extracted to: on Windows the path is split
/// at `/` and `\`, each name is made a legal file name (`.`/`..`, a drive
/// prefix and a root are kept as they are) and the parts are joined with `\`;
/// elsewhere the path is already a valid relative path and is kept.
pub fn sanitize_path(path: &str, windows: bool) -> (r: String)
    ensures
        r@ == sanitized(path@, windows),
{
    let p = chars_of(path);
    if !windows {
        return string_from_vec(&p);
    }
    let comps = path_components_on(&p, true);
    let n = comps.len();
    let mut safe: Vec<Vec<char>> = Vec::new();
    let mut i: usize = 0;
    while i < n
        invariant
            n == comps.deep_view().len(),
            i <= n,
            safe.deep_view() == comps.deep_view().take(i as int).map_values(
                |c: Seq<char>| safe_component(c),
            ),
        decreases n - i,
    {
        let s = safe_component_exec(&comps[i]);
        let ghost before = safe.deep_view();
        assert(s.deep_view() =~= s@);
        assert(comps[i as int].deep_view() =~= comps[i as int]@);
        let ghost sv = s@;
        safe.push(s);
        assert(comps[i as int]@ == comps.deep_view()[i as int]);
        assert(safe.deep_view() =~= before.push(sv));
        assert(comps.deep_view().take(i + 1).map_values(|c: Seq<char>| safe_component(c))
            =~= comps.deep_view().take(i as int).map_values(|c: Seq<char>| safe_component(c)).push(
            safe_component(comps.deep_view()[i as int]),
        ));
        assert(safe.deep_view() =~= comps.deep_view().take(i + 1).map_values(
            |c: Seq<char>| safe_component(c),
        ));
        i = i + 1;
    }
    assert(comps.deep_view().take(n as int) =~= comps.deep_view());
    let root = path_has_root_on(&p, true);
    let drive: Vec<char> = if has_drive_exec(&p, true) {
        take_chars(&p, 2)
    } else {
        Vec::new()
    };
    assert(drive@ =~= drive_text(p@, true));
    let out = render_on_exec(&drive, root, &safe, n, true);
    assert(safe.deep_view().take(n as int) =~= safe.deep_view());
    string_from_vec(&out)
}

/// The name an input is stored under in an archive: `walked` (a path found
/// under the input `input`) relative to the input's parent directory, as an
/// archive name, with paths read under the platform's rules; none when that
/// name is empty.
pub open spec fn entry_name(input: Seq<char>, walked: Seq<char>, windows: bool) -> Seq<char> {
    let base = match parent_on(input, windows) {
        Some(b) => b,
        None => Seq::<char>::empty(),
    };
    let rel = match strip_prefix_on(walked, base, windows) {
        Some((_root, c)) => c,
        None => components_on(walked, windows),
    };
    join_with(names_only(rel), '/')
}

/// The name an input is stored under: `walked` (a path found while walking
/// the input `input`) relative to the input's parent directory, converted to
/// an archive name; none when that name is empty (such entries are skipped).
/// `windows` says whether paths are read as on Windows.
pub fn archive_entry_name(input: &str, walked: &str, windows: bool) -> (r: Option<String>)
    ensures
        match r {
            Some(n) => n@ == entry_name(input@, walked@, windows) && n@.len() > 0,
            None => entry_name(input@, walked@, windows).len() == 0,
        },
{
    let inp = chars_of(input);
    let w = chars_of(walked);
    let base = match parent_on_exec(&inp, windows) {
        Some(b) => b,
        None => Vec::new(),
    };
    let rel = match strip_prefix_on_exec(&w, &base, windows) {
        Some(c) => c,
        None => path_components_on(&w, windows),
    };
    let names = names_only_exec(&rel);
    let joined = join_exec(&names, names.len(), '/');
    assert(names.deep_view().take(names.len() as int) =~= names.deep_view());
    if joined.len() == 0 {
        None
    } else {
        Some(string_from_vec(&joined))
    }
}

/// Whether `l` (lower-cased) is one of the device names Windows reserves:
/// `con`, `prn`, `aux`, `nul`, `com1` to `com9`, `lpt1` to `lpt9`.
pub open spec fn windows_device(l: Seq<char>) -> bool {
    ||| l == "con"@
    ||| l == "prn"@
    ||| l == "aux"@
    ||| l == "nul"@
    ||| l == "com1"@
    ||| l == "com2"@
    ||| l == "com3"@
    ||| l == "com4"@
    ||| l == "com5"@
    ||| l == "com6"@
    ||| l == "com7"@
    ||| l == "com8"@
    ||| l == "com9"@
    ||| l == "lpt1"@
    ||| l == "lpt2"@
    ||| l == "lpt3"@
    ||| l == "lpt4"@
    ||| l == "lpt5"@
    ||| l == "lpt6"@
    ||| l == "lpt7"@
    ||| l == "lpt8"@
    ||| l == "lpt9"@
}

/// The table of device names spelled out.
proof fn lemma_reserved_table()
    ensures
        reserved_names().len() == 22,
        reserved_names()[0] == "con"@,
        reserved_names()[1] == "prn"@,
        reserved_names()[2] == "aux"@,
        reserved_names()[3] == "nul"@,
        reserved_names()[4] == "com1"@,
        reserved_names()[5] == "com2"@,
        reserved_names()[6] == "com3"@,
        reserved_names()[7] == "com4"@,
        reserved_names()[8] == "com5"@,
        reserved_names()[9] == "com6"@,
        reserved_names()[10] == "com7"@,
        reserved_names()[11] == "com8"@,
        reserved_names()[12] == "com9"@,
        reserved_names()[13] == "lpt1"@,
        reserved_names()[14] == "lpt2"@,
        reserved_names()[15] == "lpt3"@,
        reserved_names()[16] == "lpt4"@,
        reserved_names()[17] == "lpt5"@,
        reserved_names()[18] == "lpt6"@,
        reserved_names()[19] == "lpt7"@,
        reserved_names()[20] == "lpt8"@,
        reserved_names()[21] == "lpt9"@,
{
}

/// A stem is a reserved Windows device name exactly when, ignoring ASCII
/// case, it is `CON`, `PRN`, `AUX`, `NUL`, `COM1` to `COM9` or `LPT1` to
/// `LPT9`.
pub proof fn lemma_reserved_devices(stem: Seq<char>)
    ensures
        is_reserved(stem) <==> windows_device(lower_seq(stem)),
{
    lemma_reserved_table();
    if is_reserved(stem) {
        let i = choose|i: int| 0 <= i < 22 && lower_seq(stem) == #[trigger] reserved_names()[i];
        assert(0 <= i < 22);
    }
    if lower_seq(stem) == "con"@ {
        assert(lower_seq(stem) == reserved_names()[0]);
    }
    if lower_seq(stem) == "prn"@ {
        assert(lower_seq(stem) == reserved_names()[1]);
    }
    if lower_seq(stem) == "aux"@ {
        assert(lower_seq(stem) == reserved_names()[2]);
    }
    if lower_seq(stem) == "nul"@ {
        assert(lower_seq(stem) == reserved_names()[3]);
    }
    if lower_seq(stem) == "com1"@ {
        assert(lower_seq(stem) == reserved_names()[4]);
    }
    if lower_seq(stem) == "com2"@ {
        assert(lower_seq(stem) == reserved_names()[5]);
    }
    if lower_seq(stem) == "com3"@ {
        assert(lower_seq(stem) == reserved_names()[6]);
    }
    if lower_seq(stem) == "com4"@ {
        assert(lower_seq(stem) == reserved_names()[7]);
    }
    if lower_seq(stem) == "com5"@ {
        assert(lower_seq(stem) == reserved_names()[8]);
    }
    if lower_seq(stem) == "com6"@ {
        assert(lower_seq(stem) == reserved_names()[9]);
    }
    if lower_seq(stem) == "com7"@ {
        assert(lower_seq(stem) == reserved_names()[10]);
    }
    if lower_seq(stem) == "com8"@ {
        assert(lower_seq(stem) == reserved_names()[11]);
    }
    if lower_seq(stem) == "com9"@ {
        assert(lower_seq(stem) == reserved_names()[12]);
    }
    if lower_seq(stem) == "lpt1"@ {
        assert(lower_seq(stem) == reserved_names()[13]);
    }
    if lower_seq(stem) == "lpt2"@ {
        assert(lower_seq(stem) == reserved_names()[14]);
    }
    if lower_seq(stem) == "lpt3"@ {
        assert(lower_seq(stem) == reserved_names()[15]);
    }
    if lower_seq(stem) == "lpt4"@ {
        assert(lower_seq(stem) == reserved_names()[16]);
    }
    if lower_seq(stem) == "lpt5"@ {
        assert(lower_seq(stem) == reserved_names()[17]);
    }
    if lower_seq(stem) == "lpt6"@ {
        assert(lower_seq(stem) == reserved_names()[18]);
    }
    if lower_seq(stem) == "lpt7"@ {
        assert(lower_seq(stem) == reserved_names()[19]);
    }
    if lower_seq(stem) == "lpt8"@ {
        assert(lower_seq(stem) == reserved_names()[20]);
    }
    if lower_seq(stem) == "lpt9"@ {
        assert(lower_seq(stem) == reserved_names()[21]);
    }
}

/// A name whose stem (before its first dot) is a Windows device name, in
/// any case, is made safe by putting `_` in front of it: `prn.txt` becomes
/// `_prn.txt`, `Com1` becomes `_Com1`.
pub proof fn lemma_device_names_get_underscore(name: Seq<char>)
    requires
        windows_device(lower_seq(name.take(first_dot(name)))),
    ensures
        windows_safe_name(name)[0] == '_',
        windows_safe_name(name).subrange(1, name.len() + 1int) == win_cleaned(name),
{
    reveal_strlit("con");
    reveal_strlit("prn");
    reveal_strlit("aux");
    reveal_strlit("nul");
    reveal_strlit("com1");
    reveal_strlit("com2");
    reveal_strlit("com3");
    reveal_strlit("com4");
    reveal_strlit("com5");
    reveal_strlit("com6");
    reveal_strlit("com7");
    reveal_strlit("com8");
    reveal_strlit("com9");
    reveal_strlit("lpt1");
    reveal_strlit("lpt2");
    reveal_strlit("lpt3");
    reveal_strlit("lpt4");
    reveal_strlit("lpt5");
    reveal_strlit("lpt6");
    reveal_strlit("lpt7");
    reveal_strlit("lpt8");
    reveal_strlit("lpt9");
    let fd = first_dot(name);
    let stem = name.take(fd);
    let c = win_cleaned(name);
    lemma_first_dot_bounds(name);
    lemma_first_dot_bounds(c);
    assert(lower_seq(stem).len() == stem.len());
    assert forall|k: int| 0 <= k < fd implies c[k] == name[k] by {
        assert(lower_seq(stem)[k] == lower(name[k]));
        assert(!win_forbidden(name[k]));
    }
    if fd < name.len() {
        assert(c[fd] == '.');
    }
    let e = first_dot(c);
    if e < fd {
        assert(c[e] == name[e]);
    }
    if e > fd {
        assert(c[fd] == '.');
    }
    assert(e == fd);
    assert(c.take(e) =~= stem);
    lemma_reserved_devices(stem);
    let c1 = seq!['_'] + c;
    assert(c1.subrange(1, name.len() + 1int) =~= c);
    if c1.last() == '.' || c1.last() == ' ' {
        assert(c1.push('_').subrange(1, name.len() + 1int) =~= c);
    }
}

/// Making a name safe on Windows keeps it apart from the changes it needs:
/// each character Windows forbids (`<`, `>`, `:`, `"`, `|`, `?`, `*`, and the
/// control characters below 0x20) becomes `_` and every other character is
/// kept; the cleaned name then appears whole in the result, after a leading
/// `_` at most; a cleaned name ending with `.` or a space gets `_` after it;
/// and the empty name becomes `_`.
pub proof fn lemma_safe_name_shape(name: Seq<char>)
    ensures
        forall|k: int|
            0 <= k < name.len() ==> #[trigger] win_cleaned(name)[k] == (if name[k] == '<' || name[k]
                == '>' || name[k] == ':' || name[k] == '"' || name[k] == '|' || name[k] == '?'
                || name[k] == '*' || (name[k] as u32) < 0x20 {
                '_'
            } else {
                name[k]
            }),
        name.len() > 0 ==> exists|o: int|
            0 <= o <= 1 && #[trigger] windows_safe_name(name).subrange(o, o + name.len()) == win_cleaned(
                name,
            ),
        name.len() > 0 && (win_cleaned(name).last() == '.' || win_cleaned(name).last() == ' ')
            ==> windows_safe_name(name).last() == '_',
        name.len() == 0 ==> windows_safe_name(name) == seq!['_'],
{
    let c = win_cleaned(name);
    if name.len() > 0 {
        let c1 = if is_reserved(c.take(first_dot(c))) {
            seq!['_'] + c
        } else {
            c
        };
        let o: int = if is_reserved(c.take(first_dot(c))) {
            1
        } else {
            0
        };
        assert(c1.subrange(o, o + name.len()) =~= c);
        if c1.last() == '.' || c1.last() == ' ' {
            assert(c1.push('_').subrange(o, o + name.len()) =~= c);
        }
        assert(windows_safe_name(name).subrange(o, o + name.len()) == c);
    } else {
        assert(c =~= Seq::<char>::empty());
    }
}

} // verus!
