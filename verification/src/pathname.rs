//! Paths as the library handles them: `/`-separated strings, mostly as
//! the application hands them over after canonicalization. File names,
//! extensions and parents read a path as std's `Path` does at its end:
//! trailing separators and trailing `.` components are ignored.
//!
//! Each operation is stated over the characters of the path.

use vstd::prelude::*;
use crate::text::{
    chars_eq_ignore_ascii_case, chars_of, eq_ignore_ascii_case, push_char, str_eq, string_from_chars,
    string_from_range,
};

verus! {

/// Index of the last occurrence of `c` in `s`, or -1.
pub open spec fn last_index_of(s: Seq<char>, c: char) -> int
    decreases s.len(),
{
    if s.len() == 0 {
        -1
    } else if s.last() == c {
        s.len() - 1
    } else {
        last_index_of(s.drop_last(), c)
    }
}

pub proof fn lemma_last_index_of(s: Seq<char>, c: char)
    ensures
        -1 <= last_index_of(s, c) < s.len(),
        last_index_of(s, c) >= 0 ==> s[last_index_of(s, c)] == c,
        forall|j: int| last_index_of(s, c) < j < s.len() ==> s[j] != c,
    decreases s.len(),
{
    if s.len() > 0 && s.last() != c {
        lemma_last_index_of(s.drop_last(), c);
        assert forall|j: int| last_index_of(s, c) < j < s.len() implies s[j] != c by {
            if j < s.len() - 1 {
                assert(s.drop_last()[j] == s[j]);
            }
        }
    }
}

/// `p` without what std's `Path` ignores at its end: trailing separators
/// and trailing `.` components (the root `/` itself stays).
pub open spec fn trim_trailing(p: Seq<char>) -> Seq<char>
    decreases p.len(),
{
    if p.len() > 1 && p.last() == '/' {
        trim_trailing(p.drop_last())
    } else if p.len() >= 2 && p.last() == '.' && p[p.len() - 2] == '/' {
        trim_trailing(p.drop_last())
    } else {
        p
    }
}

/// The text after the last `/` of `p`, unless it is empty, `.` or `..`.
pub open spec fn raw_file_name(p: Seq<char>) -> Option<Seq<char>> {
    let name = p.subrange(last_index_of(p, '/') + 1, p.len() as int);
    if name.len() == 0 || name == seq!['.'] || name == seq!['.', '.'] {
        None
    } else {
        Some(name)
    }
}

/// The last component of a path (std's `Path::file_name`): the last
/// `/`-separated part once trailing separators and `.` components are
/// dropped, unless it is empty, `.` or `..`.
pub open spec fn spec_file_name(p: Seq<char>) -> Option<Seq<char>> {
    raw_file_name(trim_trailing(p))
}

/// The text after the last `.` of `raw_file_name(p)`, when that `.` is not
/// the name's first character.
pub open spec fn raw_extension(p: Seq<char>) -> Option<Seq<char>> {
    match raw_file_name(p) {
        None => None,
        Some(name) => {
            let d = last_index_of(name, '.');
            if d <= 0 {
                None
            } else {
                Some(name.subrange(d + 1, name.len() as int))
            }
        },
    }
}

/// The extension of a path (std's `Path::extension`): the text after the
/// last `.` of its file name, when that `.` is not the name's first
/// character.
pub open spec fn spec_extension(p: Seq<char>) -> Option<Seq<char>> {
    raw_extension(trim_trailing(p))
}

pub open spec fn md_chars() -> Seq<char> {
    seq!['m', 'd']
}

pub open spec fn markdown_chars() -> Seq<char> {
    seq!['m', 'a', 'r', 'k', 'd', 'o', 'w', 'n']
}

/// A Markdown file: its extension is `md` or `markdown`, in any ASCII case.
pub open spec fn spec_is_markdown(p: Seq<char>) -> bool {
    match spec_extension(p) {
        Some(ext) => eq_ignore_ascii_case(ext, md_chars()) || eq_ignore_ascii_case(
            ext,
            markdown_chars(),
        ),
        None => false,
    }
}

/// The parent of a path (std's `Path::parent`): with trailing separators
/// and `.` components dropped, everything before the last `/`, itself
/// without them (the root `/` for a top-level entry, the empty path for a
/// relative single component); none for the root or the empty path.
pub open spec fn spec_parent(p: Seq<char>) -> Option<Seq<char>> {
    let t = trim_trailing(p);
    let i = last_index_of(t, '/');
    if t.len() == 0 || t == seq!['/'] {
        None
    } else if i < 0 {
        Some(Seq::empty())
    } else if i == 0 {
        Some(seq!['/'])
    } else {
        Some(trim_trailing(t.subrange(0, i)))
    }
}

/// `p` is absolute: it starts at the root `/`.
pub open spec fn is_absolute(p: Seq<char>) -> bool {
    p.len() > 0 && p[0] == '/'
}

/// The first `n` of `names`, without `.` names except a leading one when
/// `keep_first_dot`.
pub open spec fn kept_names(names: Seq<Seq<char>>, keep_first_dot: bool, n: int) -> Seq<Seq<char>>
    decreases n,
{
    if n <= 0 {
        Seq::empty()
    } else if names[n - 1] == seq!['.'] && !(n - 1 == 0 && keep_first_dot) {
        kept_names(names, keep_first_dot, n - 1)
    } else {
        kept_names(names, keep_first_dot, n - 1).push(names[n - 1])
    }
}

/// The components std's `Path::components` yields for `p`, as text: the
/// root `/` first for an absolute path, then its names; empty and `.`
/// components are dropped, except a `.` that starts a relative path.
pub open spec fn path_components(p: Seq<char>) -> Seq<Seq<char>> {
    let names = spec_components(p);
    (if is_absolute(p) { seq![seq!['/']] } else { Seq::empty() })
        + kept_names(names, !is_absolute(p), names.len() as int)
}

/// `base` is a prefix of `p` component by component (std's
/// `Path::starts_with`).
pub open spec fn spec_starts_with(p: Seq<char>, base: Seq<char>) -> bool {
    let a = path_components(p);
    let b = path_components(base);
    b.len() <= a.len() && a.subrange(0, b.len() as int) == b
}

/// `base` joined with `name`: `name` itself when it is absolute or `base`
/// is empty, otherwise the two with one `/` between them.
pub open spec fn spec_join(base: Seq<char>, name: Seq<char>) -> Seq<char> {
    if (name.len() > 0 && name[0] == '/') || base.len() == 0 {
        name
    } else if base.last() == '/' {
        base + name
    } else {
        base + seq!['/'] + name
    }
}

/// Splitting `s` at `/`, scanning left to right with the components found
/// so far (`acc`) and the current partial component (`cur`).
pub open spec fn split_acc(s: Seq<char>, acc: Seq<Seq<char>>, cur: Seq<char>) -> Seq<Seq<char>>
    decreases s.len(),
{
    if s.len() == 0 {
        if cur.len() == 0 {
            acc
        } else {
            acc.push(cur)
        }
    } else if s[0] == '/' {
        split_acc(s.drop_first(), if cur.len() == 0 { acc } else { acc.push(cur) }, Seq::empty())
    } else {
        split_acc(s.drop_first(), acc, cur.push(s[0]))
    }
}

/// The non-empty `/`-separated components of `s`.
pub open spec fn spec_components(s: Seq<char>) -> Seq<Seq<char>> {
    split_acc(s, Seq::empty(), Seq::empty())
}

/// The components of `p` below `root` (std's `Path::strip_prefix` then
/// `components`), when `root` is a prefix of `p` component by component.
pub open spec fn spec_relative_components(p: Seq<char>, root: Seq<char>) -> Option<Seq<Seq<char>>> {
    if spec_starts_with(p, root) {
        let a = path_components(p);
        Some(a.subrange(path_components(root).len() as int, a.len() as int))
    } else {
        None
    }
}

fn last_index(v: &Vec<char>, c: char) -> (r: Option<usize>)
    ensures
        match r {
            Some(i) => i == last_index_of(v@, c) && i < v.len(),
            None => last_index_of(v@, c) == -1,
        },
{
    let mut i: usize = v.len();
    assert(v@.subrange(0, i as int) =~= v@);
    while i > 0
        invariant
            0 <= i <= v@.len(),
            last_index_of(v@, c) == last_index_of(v@.subrange(0, i as int), c),
        decreases i,
    {
        if v[i - 1] == c {
            assert(v@.subrange(0, i as int).last() == c);
            return Some(i - 1);
        }
        assert(v@.subrange(0, i as int).drop_last() =~= v@.subrange(0, i - 1));
        i = i - 1;
    }
    assert(v@.subrange(0, 0).len() == 0);
    None
}

fn file_name_range(v: &Vec<char>) -> (r: Option<usize>)
    ensures
        match raw_file_name(v@) {
            None => r is None,
            Some(name) => r is Some && r->0 <= v@.len() && name == v@.subrange(r->0 as int, v@.len() as int),
        },
{
    proof { lemma_last_index_of(v@, '/'); }
    let start: usize = match last_index(v, '/') {
        Some(i) => i + 1,
        None => 0,
    };
    let n = v.len() - start;
    let ghost name = v@.subrange(start as int, v@.len() as int);
    if n == 0 {
        return None;
    }
    if n == 1 && v[start] == '.' {
        assert(name =~= seq!['.']);
        return None;
    }
    if n == 2 && v[start] == '.' && v[start + 1] == '.' {
        assert(name =~= seq!['.', '.']);
        return None;
    }
    assert(name.len() == n);
    assert(name[0] == v@[start as int]);
    assert(n >= 2 ==> name[1] == v@[start + 1]);
    proof {
        if name == seq!['.'] {
            assert(name[0] == '.');
        }
        if name == seq!['.', '.'] {
            assert(name[0] == '.' && name[1] == '.');
        }
    }
    Some(start)
}

/// `v` without trailing separators and `.` components (see
/// `trim_trailing`).
fn trim_chars(v: &Vec<char>) -> (r: Vec<char>)
    ensures
        r@ == trim_trailing(v@),
{
    let mut n: usize = v.len();
    assert(v@.subrange(0, n as int) =~= v@);
    while n > 1 && (v[n - 1] == '/' || (v[n - 1] == '.' && v[n - 2] == '/'))
        invariant
            0 <= n <= v@.len(),
            trim_trailing(v@.subrange(0, n as int)) == trim_trailing(v@),
        decreases n,
    {
        let ghost t = v@.subrange(0, n as int);
        assert(t.drop_last() =~= v@.subrange(0, n - 1));
        n = n - 1;
    }
    assert(trim_trailing(v@.subrange(0, n as int)) == v@.subrange(0, n as int));
    let mut r: Vec<char> = Vec::new();
    let mut k: usize = 0;
    while k < n
        invariant
            0 <= k <= n <= v@.len(),
            r@ == v@.subrange(0, k as int),
        decreases n - k,
    {
        r.push(v[k]);
        assert(v@.subrange(0, k + 1) =~= v@.subrange(0, k as int).push(v@[k as int]));
        k = k + 1;
    }
    r
}

/// The last component of `path` (std's `Path::file_name`).
pub fn file_name(path: &str) -> (r: Option<String>)
    ensures
        match r {
            Some(s) => spec_file_name(path@) == Some(s@),
            None => spec_file_name(path@) is None,
        },
{
    let v = trim_chars(&chars_of(path));
    match file_name_range(&v) {
        None => None,
        Some(start) => Some(string_from_range(&v, start, v.len())),
    }
}

fn extension_chars(v: &Vec<char>) -> (r: Option<Vec<char>>)
    ensures
        match r {
            Some(e) => raw_extension(v@) == Some(e@),
            None => raw_extension(v@) is None,
        },
{
    match file_name_range(v) {
        None => None,
        Some(start) => {
            let ghost name = v@.subrange(start as int, v@.len() as int);
            let mut i: usize = v.len();
            assert(name.subrange(0, i - start) =~= name);
            while i > start
                invariant
                    start <= i <= v@.len(),
                    name == v@.subrange(start as int, v@.len() as int),
                    raw_file_name(v@) == Some(name),
                    last_index_of(name, '.') == last_index_of(
                        name.subrange(0, i - start),
                        '.',
                    ),
                decreases i,
            {
                if v[i - 1] == '.' {
                    assert(name.subrange(0, i - start).last() == '.');
                    assert(last_index_of(name, '.') == i - 1 - start);
                    assert(raw_file_name(v@) == Some(name));
                    if i - 1 == start {
                        return None;
                    }
                    let mut e: Vec<char> = Vec::new();
                    let mut k = i;
                    while k < v.len()
                        invariant
                            i <= k <= v@.len(),
                            e@ == v@.subrange(i as int, k as int),
                        decreases v@.len() - k,
                    {
                        e.push(v[k]);
                        assert(v@.subrange(i as int, k + 1) =~= v@.subrange(i as int, k as int).push(v@[k as int]));
                        k = k + 1;
                    }
                    assert(name.subrange(i - start, name.len() as int) =~= v@.subrange(i as int, v@.len() as int));
                    return Some(e);
                }
                assert(name.subrange(0, i - start).drop_last() =~= name.subrange(0, i - 1 - start));
                i = i - 1;
            }
            assert(name.subrange(0, 0).len() == 0);
            None
        },
    }
}

/// Whether `path` names a Markdown file: its extension is `md` or
/// `markdown`, compared without regard to ASCII case.
pub fn is_markdown_file(path: &str) -> (r: bool)
    ensures
        r == spec_is_markdown(path@),
{
    let v = trim_chars(&chars_of(path));
    match extension_chars(&v) {
        None => false,
        Some(ext) => {
            let md = vec!['m', 'd'];
            let markdown = vec!['m', 'a', 'r', 'k', 'd', 'o', 'w', 'n'];
            assert(md@ =~= md_chars());
            assert(markdown@ =~= markdown_chars());
            chars_eq_ignore_ascii_case(&ext, &md) || chars_eq_ignore_ascii_case(&ext, &markdown)
        },
    }
}

/// The views of a sequence of strings.
pub open spec fn views(v: Seq<String>) -> Seq<Seq<char>> {
    v.map_values(|s: String| s@)
}

/// The parent of `path` (std's `Path::parent`).
pub fn parent(path: &str) -> (r: Option<String>)
    ensures
        match r {
            Some(s) => spec_parent(path@) == Some(s@),
            None => spec_parent(path@) is None,
        },
{
    let v = trim_chars(&chars_of(path));
    if v.len() == 0 {
        return None;
    }
    if v.len() == 1 && v[0] == '/' {
        assert(v@ =~= seq!['/']);
        return None;
    }
    assert(v@ != seq!['/']) by {
        if v@ == seq!['/'] {
            assert(v@.len() == 1 && v@[0] == '/');
        }
    }
    match last_index(&v, '/') {
        None => Some(String::new()),
        Some(i) => {
            if i == 0 {
                let mut s = String::new();
                push_char(&mut s, '/');
                assert(s@ =~= seq!['/']);
                Some(s)
            } else {
                let head = string_from_range(&v, 0, i);
                let t = trim_chars(&chars_of(head.as_str()));
                Some(string_from_chars(&t))
            }
        },
    }
}

/// The components of `path` (see `path_components`).
fn path_comps(path: &str) -> (r: Vec<String>)
    ensures
        views(r@) == path_components(path@),
{
    let v = chars_of(path);
    let names = components_from(&v, 0);
    assert(v@.subrange(0, v@.len() as int) =~= v@);
    let abs = v.len() > 0 && v[0] == '/';
    let mut r: Vec<String> = Vec::new();
    if abs {
        let mut root = String::new();
        push_char(&mut root, '/');
        r.push(root);
    }
    let ghost head = views(r@);
    proof {
        assert(head =~= (if is_absolute(path@) { seq![seq!['/']] } else { Seq::<Seq<char>>::empty() }));
        reveal_strlit(".");
    }
    let mut k: usize = 0;
    while k < names.len()
        invariant
            0 <= k <= names@.len(),
            abs == is_absolute(path@),
            views(names@) == spec_components(path@),
            views(r@) == head + kept_names(views(names@), !abs, k as int),
            ".".view() == seq!['.'],
        decreases names@.len() - k,
    {
        let ghost before = views(r@);
        let dot = str_eq(names[k].as_str(), ".");
        assert(views(names@)[k as int] == names@[k as int]@);
        if !(dot && !(k == 0 && !abs)) {
            let c = names[k].clone();
            r.push(c);
            assert(views(r@) =~= before.push(names@[k as int]@));
        }
        k = k + 1;
    }
    r
}

/// Whether `base` is a prefix of `path` component by component (std's
/// `Path::starts_with`).
pub fn starts_with(path: &str, base: &str) -> (r: bool)
    ensures
        r == spec_starts_with(path@, base@),
{
    let a = path_comps(path);
    let b = path_comps(base);
    prefix_len(&a, &b)
}

/// Whether `b` is a prefix of `a`, compared by text.
fn prefix_len(a: &Vec<String>, b: &Vec<String>) -> (r: bool)
    ensures
        r == (views(b@).len() <= views(a@).len()
            && views(a@).subrange(0, views(b@).len() as int) == views(b@)),
{
    if b.len() > a.len() {
        return false;
    }
    let mut i: usize = 0;
    while i < b.len()
        invariant
            b@.len() <= a@.len(),
            0 <= i <= b@.len(),
            forall|j: int| 0 <= j < i ==> views(a@)[j] == views(b@)[j],
        decreases b@.len() - i,
    {
        if !str_eq(a[i].as_str(), b[i].as_str()) {
            assert(views(a@)[i as int] == a@[i as int]@ && views(b@)[i as int] == b@[i as int]@);
            assert(views(a@).subrange(0, views(b@).len() as int)[i as int] != views(b@)[i as int]);
            return false;
        }
        assert(views(a@)[i as int] == a@[i as int]@ && views(b@)[i as int] == b@[i as int]@);
        i = i + 1;
    }
    assert(views(a@).subrange(0, views(b@).len() as int) =~= views(b@));
    true
}

/// `base` joined with `name` (std's `Path::join`).
pub fn join(base: &str, name: &str) -> (r: String)
    ensures
        r@ == spec_join(base@, name@),
{
    let b = chars_of(base);
    let n = chars_of(name);
    if (n.len() > 0 && n[0] == '/') || b.len() == 0 {
        return string_from_chars(&n);
    }
    let mut s = string_from_chars(&b);
    if b[b.len() - 1] != '/' {
        push_char(&mut s, '/');
    }
    let mut i: usize = 0;
    let ghost prefix = s@;
    while i < n.len()
        invariant
            0 <= i <= n@.len(),
            s@ == prefix + n@.subrange(0, i as int),
        decreases n@.len() - i,
    {
        push_char(&mut s, n[i]);
        assert(n@.subrange(0, i + 1) =~= n@.subrange(0, i as int).push(n@[i as int]));
        i = i + 1;
    }
    assert(n@.subrange(0, n@.len() as int) =~= n@);
    s
}

fn components_from(v: &Vec<char>, from: usize) -> (r: Vec<String>)
    requires
        from <= v@.len(),
    ensures
        views(r@) == spec_components(v@.subrange(from as int, v@.len() as int)),
{
    let mut acc: Vec<String> = Vec::new();
    let mut cur: Vec<char> = Vec::new();
    let mut i = from;
    assert(views(acc@) =~= Seq::<Seq<char>>::empty());
    assert(cur@ =~= Seq::<char>::empty());
    while i < v.len()
        invariant
            from <= i <= v@.len(),
            split_acc(v@.subrange(i as int, v@.len() as int), views(acc@), cur@)
                == spec_components(v@.subrange(from as int, v@.len() as int)),
        decreases v@.len() - i,
    {
        let ghost rest = v@.subrange(i as int, v@.len() as int);
        assert(rest.drop_first() =~= v@.subrange(i + 1, v@.len() as int));
        if v[i] == '/' {
            if cur.len() > 0 {
                let ghost before = acc@;
                let piece = string_from_chars(&cur);
                acc.push(piece);
                assert(views(acc@) =~= views(before).push(cur@));
            }
            cur = Vec::new();
        } else {
            cur.push(v[i]);
        }
        i = i + 1;
    }
    proof {
        assert(v@.subrange(i as int, v@.len() as int).len() == 0);
    }
    if cur.len() > 0 {
        let ghost before = acc@;
        let piece = string_from_chars(&cur);
        acc.push(piece);
        assert(views(acc@) =~= views(before).push(cur@));
    }
    acc
}

/// The non-empty `/`-separated components of `path` (the names that std's
/// `Path::components` yields for a normalized path).
pub fn components(path: &str) -> (r: Vec<String>)
    ensures
        views(r@) == spec_components(path@),
{
    let v = chars_of(path);
    let r = components_from(&v, 0);
    assert(v@.subrange(0, v@.len() as int) =~= v@);
    r
}

/// The components of `path` below `root` (std's `Path::strip_prefix`
/// followed by `components`), or `None` when `root` is not a prefix of
/// `path` component by component.
pub fn relative_components(path: &str, root: &str) -> (r: Option<Vec<String>>)
    ensures
        match r {
            Some(c) => spec_relative_components(path@, root@) == Some(views(c@)),
            None => spec_relative_components(path@, root@) is None,
        },
{
    let a = path_comps(path);
    let b = path_comps(root);
    if !prefix_len(&a, &b) {
        return None;
    }
    let mut rest: Vec<String> = Vec::new();
    let mut k: usize = b.len();
    while k < a.len()
        invariant
            b@.len() <= k <= a@.len(),
            views(rest@) == views(a@).subrange(b@.len() as int, k as int),
        decreases a@.len() - k,
    {
        let ghost before = views(rest@);
        let c = a[k].clone();
        rest.push(c);
        assert(views(a@)[k as int] == a@[k as int]@);
        assert(views(rest@) =~= before.push(a@[k as int]@));
        assert(views(rest@) =~= views(a@).subrange(b@.len() as int, k + 1));
        k = k + 1;
    }
    Some(rest)
}

} // verus!
