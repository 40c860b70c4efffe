//! Paths held as strings. Both `/` and `\` separate components; a joined
//! component is attached with `/`.
use vstd::prelude::*;

use crate::text::{chars_of, string_of};

verus! {

/// Whether `c` separates path components.
pub open spec fn is_sep(c: char) -> bool {
    c == '/' || c == '\\'
}

/// The path without trailing separators (a lone root separator stays).
pub open spec fn strip_trailing_seps(s: Seq<char>) -> Seq<char>
    decreases s.len(),
{
    if s.len() > 1 && is_sep(s.last()) {
        strip_trailing_seps(s.drop_last())
    } else {
        s
    }
}

/// Index of the last separator, or -1.
pub open spec fn last_sep(s: Seq<char>) -> int
    decreases s.len(),
{
    if s.len() == 0 {
        -1
    } else if is_sep(s.last()) {
        s.len() - 1
    } else {
        last_sep(s.drop_last())
    }
}

/// Index of the first separator, or -1.
pub open spec fn first_sep(s: Seq<char>) -> int
    decreases s.len(),
{
    if s.len() == 0 {
        -1
    } else if is_sep(s[0]) {
        0
    } else {
        let k = first_sep(s.drop_first());
        if k < 0 {
            -1
        } else {
            k + 1
        }
    }
}

/// The final component of a path, as `Path::file_name` reads it on Windows:
/// `None` for an empty path, a root, or a final `..`. Unlike
/// `Path::file_name`, a final `.` component is taken as the name (`a/.`
/// gives `.`, where std gives `a`); the paths the editor handles come from
/// folder listings and never end in `.`.
pub open spec fn file_name(s: Seq<char>) -> Option<Seq<char>> {
    let t = strip_trailing_seps(s);
    let name = t.skip(last_sep(t) + 1);
    if name.len() == 0 || name == seq!['.', '.'] {
        None
    } else {
        Some(name)
    }
}

/// The path without its final component (`Path::parent`): `None` for an
/// empty path or a root.
pub open spec fn parent(s: Seq<char>) -> Option<Seq<char>> {
    let t = strip_trailing_seps(s);
    let k = last_sep(t);
    if t.len() == 0 || (t.len() == 1 && is_sep(t[0])) {
        None
    } else if k < 0 {
        Some(Seq::empty())
    } else if k == 0 {
        Some(t.take(1))
    } else {
        Some(strip_trailing_seps(t.take(k)))
    }
}

/// Index of the last `.` of a name, or -1.
pub open spec fn last_dot(s: Seq<char>) -> int
    decreases s.len(),
{
    if s.len() == 0 {
        -1
    } else if s.last() == '.' {
        s.len() - 1
    } else {
        last_dot(s.drop_last())
    }
}

/// The stem of a file name (`Path::file_stem`): the name before its last
/// `.`, or the whole name when that `.` is its first character or absent.
pub open spec fn name_stem(name: Seq<char>) -> Seq<char> {
    if name == seq!['.', '.'] || last_dot(name) <= 0 {
        name
    } else {
        name.take(last_dot(name))
    }
}

/// The extension of a file name (`Path::extension`).
pub open spec fn name_extension(name: Seq<char>) -> Option<Seq<char>> {
    if name == seq!['.', '.'] || last_dot(name) <= 0 {
        None
    } else {
        Some(name.skip(last_dot(name) + 1))
    }
}

/// The stem of the file name of a path.
pub open spec fn file_stem(s: Seq<char>) -> Option<Seq<char>> {
    match file_name(s) {
        Some(n) => Some(name_stem(n)),
        None => None,
    }
}

/// The extension of the file name of a path.
pub open spec fn extension(s: Seq<char>) -> Option<Seq<char>> {
    match file_name(s) {
        Some(n) => name_extension(n),
        None => None,
    }
}

/// The path with the extension of its file name replaced by `ext`
/// (`Path::with_extension`, for a non-empty `ext`): trailing separators are
/// dropped; a path without file name is unchanged.
pub open spec fn with_extension(s: Seq<char>, ext: Seq<char>) -> Seq<char> {
    let t = strip_trailing_seps(s);
    match file_name(s) {
        Some(n) => t.take(last_sep(t) + 1) + name_stem(n) + seq!['.'] + ext,
        None => s,
    }
}

/// `base` joined with `name` (`Path::join`): `name` itself when it is
/// absolute or `base` is empty.
pub open spec fn join(base: Seq<char>, name: Seq<char>) -> Seq<char> {
    if name.len() > 0 && is_sep(name[0]) {
        name
    } else if base.len() == 0 {
        name
    } else if is_sep(base.last()) {
        base + name
    } else {
        base + seq!['/'] + name
    }
}

/// The first component of a relative path.
pub open spec fn first_component(s: Seq<char>) -> Seq<char> {
    if first_sep(s) < 0 {
        s
    } else {
        s.take(first_sep(s))
    }
}

/// `path` relative to `root` when `root` is a leading part of it made of
/// whole components (`Path::strip_prefix`), without leading separators.
pub open spec fn strip_root(path: Seq<char>, root: Seq<char>) -> Option<Seq<char>> {
    let r = strip_trailing_seps(root);
    if path == r || strip_trailing_seps(path) == r {
        Some(Seq::empty())
    } else if path.len() > r.len() && path.take(r.len() as int) == r && (is_sep(path[r.len() as int]) || (
    r.len() > 0 && is_sep(r.last()))) {
        Some(skip_seps(path.skip(r.len() as int)))
    } else {
        None
    }
}

/// The sequence without its leading separators.
pub open spec fn skip_seps(s: Seq<char>) -> Seq<char>
    decreases s.len(),
{
    if s.len() > 0 && is_sep(s[0]) {
        skip_seps(s.drop_first())
    } else {
        s
    }
}

// ---------------------------------------------------------------------------

fn is_sep_exec(c: char) -> (r: bool)
    ensures
        r == is_sep(c),
{
    c == '/' || c == '\\'
}

proof fn lemma_strip_trailing_take(s: Seq<char>, n: int)
    requires
        1 <= n <= s.len(),
        forall|k: int| n <= k < s.len() ==> is_sep(#[trigger] s[k]),
    ensures
        strip_trailing_seps(s) == strip_trailing_seps(s.take(n)),
    decreases s.len() - n,
{
    if n < s.len() {
        assert(s.drop_last() =~= s.take(s.len() - 1));
        lemma_strip_trailing_take(s.drop_last(), n);
        assert(s.drop_last().take(n) =~= s.take(n));
    } else {
        assert(s.take(n) =~= s);
    }
}

/// Length of the path without trailing separators.
fn stripped_len(v: &[char], upto: usize) -> (n: usize)
    requires
        upto <= v@.len(),
    ensures
        n <= upto,
        v@.take(n as int) == strip_trailing_seps(v@.take(upto as int)),
{
    let mut n = upto;
    while n > 1 && is_sep_exec(v[n - 1])
        invariant
            n <= upto <= v@.len(),
            n == upto || n >= 1,
            forall|k: int| n <= k < upto ==> is_sep(#[trigger] v@[k]),
        decreases n,
    {
        n = n - 1;
    }
    proof {
        let t = v@.take(upto as int);
        if n >= 1 {
            assert forall|k: int| n <= k < t.len() implies is_sep(#[trigger] t[k]) by {
                assert(t[k] == v@[k]);
            }
            lemma_strip_trailing_take(t, n as int);
            assert(t.take(n as int) =~= v@.take(n as int));
        } else {
            assert(t =~= v@.take(n as int));
        }
        let u = v@.take(n as int);
        if u.len() > 1 {
            assert(u.last() == v@[n - 1]);
        }
        assert(strip_trailing_seps(u) == u);
    }
    n
}

/// Index of the last separator among the first `n` characters, or `n` when none.
fn last_sep_in(v: &[char], n: usize) -> (k: usize)
    requires
        n <= v@.len(),
    ensures
        k <= n,
        k < n ==> last_sep(v@.take(n as int)) == k,
        k == n ==> last_sep(v@.take(n as int)) == -1,
{
    let mut i = n;
    while i > 0 && !is_sep_exec(v[i - 1])
        invariant
            i <= n <= v@.len(),
            last_sep(v@.take(n as int)) == last_sep(v@.take(i as int)),
        decreases i,
    {
        proof {
            let t = v@.take(i as int);
            assert(t.drop_last() =~= v@.take(i - 1));
            assert(t.last() == v@[i - 1]);
        }
        i = i - 1;
    }
    if i == 0 {
        assert(v@.take(0) =~= Seq::<char>::empty());
        n
    } else {
        assert(v@.take(i as int).last() == v@[i - 1]);
        i - 1
    }
}

/// Characters `from..to` of a slice.
fn slice_range(v: &[char], from: usize, to: usize) -> (r: Vec<char>)
    requires
        from <= to <= v@.len(),
    ensures
        r@ == v@.subrange(from as int, to as int),
{
    let mut out: Vec<char> = Vec::new();
    let mut i = from;
    while i < to
        invariant
            from <= i <= to <= v@.len(),
            out@ == v@.subrange(from as int, i as int),
        decreases to - i,
    {
        out.push(v[i]);
        i = i + 1;
        assert(out@ =~= v@.subrange(from as int, i as int));
    }
    out
}

/// The final component of a path.
pub fn file_name_of(path: &str) -> (r: Option<String>)
    ensures
        match r {
            Some(n) => file_name(path@) == Some(n@),
            None => file_name(path@) is None,
        },
{
    let v = chars_of(path);
    let n = stripped_len(v.as_slice(), v.len());
    assert(v@.take(v@.len() as int) =~= v@);
    let k = last_sep_in(v.as_slice(), n);
    let start = if k < n {
        k + 1
    } else {
        0
    };
    let name = slice_range(v.as_slice(), start, n);
    proof {
        let t = strip_trailing_seps(v@);
        assert(t == v@.take(n as int));
        assert(t.skip(last_sep(t) + 1) =~= name@);
    }
    if name.len() == 0 || (name.len() == 2 && name[0] == '.' && name[1] == '.') {
        proof {
            if name@.len() == 2 && name@[0] == '.' && name@[1] == '.' {
                assert(name@ =~= seq!['.', '.']);
            }
        }
        None
    } else {
        proof {
            if name@ == seq!['.', '.'] {
                assert(name@[0] == '.' && name@[1] == '.');
            }
        }
        Some(string_of(name.as_slice()))
    }
}

/// The path without its final component.
pub fn parent_of(path: &str) -> (r: Option<String>)
    ensures
        match r {
            Some(p) => parent(path@) == Some(p@),
            None => parent(path@) is None,
        },
{
    let v = chars_of(path);
    let n = stripped_len(v.as_slice(), v.len());
    assert(v@.take(v@.len() as int) =~= v@);
    let ghost t = strip_trailing_seps(v@);
    assert(t == v@.take(n as int));
    if n == 0 || (n == 1 && is_sep_exec(v[0])) {
        return None;
    }
    let k = last_sep_in(v.as_slice(), n);
    if k == n {
        let e = String::new();
        return Some(e);
    }
    if k == 0 {
        let root = slice_range(v.as_slice(), 0, 1);
        assert(root@ =~= t.take(1));
        return Some(string_of(root.as_slice()));
    }
    let m = stripped_len(v.as_slice(), k);
    let pre = slice_range(v.as_slice(), 0, m);
    proof {
        assert(t.take(k as int) =~= v@.take(k as int));
        assert(pre@ =~= v@.take(m as int));
    }
    Some(string_of(pre.as_slice()))
}

/// Index of the last `.`, or `n` when there is none.
fn last_dot_in(v: &[char]) -> (k: usize)
    ensures
        k <= v@.len(),
        k < v@.len() ==> last_dot(v@) == k,
        k == v@.len() ==> last_dot(v@) == -1,
{
    let n = v.len();
    let mut i = n;
    assert(v@.take(n as int) =~= v@);
    while i > 0 && v[i - 1] != '.'
        invariant
            i <= n == v@.len(),
            last_dot(v@) == last_dot(v@.take(i as int)),
        decreases i,
    {
        proof {
            let t = v@.take(i as int);
            assert(t.drop_last() =~= v@.take(i - 1));
            assert(t.last() == v@[i - 1]);
        }
        i = i - 1;
    }
    if i == 0 {
        assert(v@.take(0) =~= Seq::<char>::empty());
        n
    } else {
        assert(v@.take(i as int).last() == v@[i - 1]);
        i - 1
    }
}

fn is_dot_dot(v: &[char]) -> (r: bool)
    ensures
        r == (v@ == seq!['.', '.']),
{
    if v.len() == 2 && v[0] == '.' && v[1] == '.' {
        assert(v@ =~= seq!['.', '.']);
        true
    } else {
        proof {
            if v@ == seq!['.', '.'] {
                assert(v@[0] == '.' && v@[1] == '.');
            }
        }
        false
    }
}

/// The stem of a file name.
pub fn name_stem_of(name: &str) -> (r: String)
    ensures
        r@ == name_stem(name@),
{
    let v = chars_of(name);
    let k = last_dot_in(v.as_slice());
    if is_dot_dot(v.as_slice()) || k == 0 || k == v.len() {
        return name.to_owned();
    }
    let s = slice_range(v.as_slice(), 0, k);
    assert(s@ =~= v@.take(k as int));
    string_of(s.as_slice())
}

/// The extension of a file name.
pub fn name_extension_of(name: &str) -> (r: Option<String>)
    ensures
        match r {
            Some(e) => name_extension(name@) == Some(e@),
            None => name_extension(name@) is None,
        },
{
    let v = chars_of(name);
    let k = last_dot_in(v.as_slice());
    if is_dot_dot(v.as_slice()) || k == 0 || k == v.len() {
        return None;
    }
    let s = slice_range(v.as_slice(), k + 1, v.len());
    assert(s@ =~= v@.skip(k + 1));
    Some(string_of(s.as_slice()))
}

/// The stem of the file name of a path.
pub fn file_stem_of(path: &str) -> (r: Option<String>)
    ensures
        match r {
            Some(s) => file_stem(path@) == Some(s@),
            None => file_stem(path@) is None,
        },
{
    match file_name_of(path) {
        Some(n) => Some(name_stem_of(n.as_str())),
        None => None,
    }
}

/// The extension of the file name of a path.
pub fn extension_of(path: &str) -> (r: Option<String>)
    ensures
        match r {
            Some(s) => extension(path@) == Some(s@),
            None => extension(path@) is None,
        },
{
    match file_name_of(path) {
        Some(n) => name_extension_of(n.as_str()),
        None => None,
    }
}

/// Whether the file name of `path` has extension `ext`.
pub fn has_extension(path: &str, ext: &str) -> (r: bool)
    ensures
        r == (extension(path@) == Some(ext@)),
{
    match extension_of(path) {
        Some(e) => crate::text::str_eq(e.as_str(), ext),
        None => false,
    }
}

/// `base` joined with `name`.
pub fn join_path(base: &str, name: &str) -> (r: String)
    ensures
        r@ == join(base@, name@),
{
    let vb = chars_of(base);
    let vn = chars_of(name);
    if vn.len() > 0 && is_sep_exec(vn[0]) {
        return name.to_owned();
    }
    if vb.len() == 0 {
        return name.to_owned();
    }
    let mut r = base.to_owned();
    if !is_sep_exec(vb[vb.len() - 1]) {
        r.push('/');
    }
    r.append(name);
    r
}

/// The first component of a relative path.
pub fn first_component_of(path: &str) -> (r: String)
    ensures
        r@ == first_component(path@),
{
    let v = chars_of(path);
    let mut i: usize = 0;
    while i < v.len() && !is_sep_exec(v[i])
        invariant
            i <= v@.len(),
            forall|k: int| 0 <= k < i ==> !is_sep(#[trigger] v@[k]),
        decreases v@.len() - i,
    {
        i = i + 1;
    }
    proof {
        lemma_first_sep(v@, i as int);
    }
    let s = slice_range(v.as_slice(), 0, i);
    proof {
        if i == v@.len() {
            assert(s@ =~= v@);
        } else {
            assert(s@ =~= v@.take(i as int));
        }
    }
    string_of(s.as_slice())
}

proof fn lemma_first_sep(s: Seq<char>, i: int)
    requires
        0 <= i <= s.len(),
        forall|k: int| 0 <= k < i ==> !is_sep(#[trigger] s[k]),
        i < s.len() ==> is_sep(s[i]),
    ensures
        i < s.len() ==> first_sep(s) == i,
        i == s.len() ==> first_sep(s) == -1,
    decreases i,
{
    if i > 0 {
        let t = s.drop_first();
        assert forall|k: int| 0 <= k < i - 1 implies !is_sep(#[trigger] t[k]) by {
            assert(t[k] == s[k + 1]);
        }
        if i < s.len() {
            assert(t[i - 1] == s[i]);
        }
        lemma_first_sep(t, i - 1);
    }
}

proof fn lemma_skip_seps(s: Seq<char>, i: int)
    requires
        0 <= i <= s.len(),
        forall|k: int| 0 <= k < i ==> is_sep(#[trigger] s[k]),
        i < s.len() ==> !is_sep(s[i]),
    ensures
        skip_seps(s) == s.skip(i),
    decreases i,
{
    if i > 0 {
        let t = s.drop_first();
        assert forall|k: int| 0 <= k < i - 1 implies is_sep(#[trigger] t[k]) by {
            assert(t[k] == s[k + 1]);
        }
        if i < s.len() {
            assert(t[i - 1] == s[i]);
        }
        lemma_skip_seps(t, i - 1);
        assert(t.skip(i - 1) =~= s.skip(i));
    } else {
        assert(s.skip(0) =~= s);
    }
}

/// `path` relative to `root`, when `root` leads it.
pub fn strip_root_of(path: &str, root: &str) -> (r: Option<String>)
    ensures
        match r {
            Some(rest) => strip_root(path@, root@) == Some(rest@),
            None => strip_root(path@, root@) is None,
        },
{
    let vp = chars_of(path);
    let vr = chars_of(root);
    let rn = stripped_len(vr.as_slice(), vr.len());
    let pn = stripped_len(vp.as_slice(), vp.len());
    assert(vr@.take(vr@.len() as int) =~= vr@);
    assert(vp@.take(vp@.len() as int) =~= vp@);
    let r = slice_range(vr.as_slice(), 0, rn);
    let ps = slice_range(vp.as_slice(), 0, pn);
    assert(r@ =~= strip_trailing_seps(root@));
    assert(ps@ =~= strip_trailing_seps(path@));
    if crate::text::chars_eq(vp.as_slice(), r.as_slice()) || crate::text::chars_eq(
        ps.as_slice(),
        r.as_slice(),
    ) {
        return Some(String::new());
    }
    if vp.len() > rn {
        let head = slice_range(vp.as_slice(), 0, rn);
        assert(head@ =~= vp@.take(rn as int));
        if crate::text::chars_eq(head.as_slice(), r.as_slice()) && (is_sep_exec(vp[rn]) || (rn > 0
            && is_sep_exec(r[rn - 1]))) {
            proof {
                if rn > 0 {
                    assert(r@.last() == r@[rn - 1]);
                }
            }
            let mut i = rn;
            while i < vp.len() && is_sep_exec(vp[i])
                invariant
                    rn <= i <= vp@.len(),
                    forall|k: int| rn <= k < i ==> is_sep(#[trigger] vp@[k]),
                decreases vp@.len() - i,
            {
                i = i + 1;
            }
            proof {
                let t = vp@.skip(rn as int);
                assert forall|k: int| 0 <= k < i - rn implies is_sep(#[trigger] t[k]) by {
                    assert(t[k] == vp@[rn + k]);
                }
                if i < vp@.len() {
                    assert(t[i - rn] == vp@[i as int]);
                }
                lemma_skip_seps(t, i - rn);
                assert(t.skip(i - rn) =~= vp@.skip(i as int));
            }
            let rest = slice_range(vp.as_slice(), i, vp.len());
            assert(rest@ =~= vp@.skip(i as int));
            return Some(string_of(rest.as_slice()));
        }
        proof {
            if rn > 0 {
                assert(r@.last() == r@[rn - 1]);
            }
        }
    }
    None
}

/// The path with the extension of its file name replaced by a non-empty `ext`.
pub fn replace_extension(path: &str, ext: &str) -> (r: String)
    ensures
        r@ == with_extension(path@, ext@),
{
    let v = chars_of(path);
    let n = stripped_len(v.as_slice(), v.len());
    assert(v@.take(v@.len() as int) =~= v@);
    let k = last_sep_in(v.as_slice(), n);
    let start = if k < n {
        k + 1
    } else {
        0
    };
    let name = slice_range(v.as_slice(), start, n);
    let ghost t = strip_trailing_seps(v@);
    proof {
        assert(t == v@.take(n as int));
        assert(t.skip(last_sep(t) + 1) =~= name@);
    }
    match file_name_of(path) {
        Some(nm) => {
            let head = slice_range(v.as_slice(), 0, start);
            assert(head@ =~= t.take(last_sep(t) + 1));
            let mut r = string_of(head.as_slice());
            let stem = name_stem_of(nm.as_str());
            r.append(stem.as_str());
            r.push('.');
            r.append(ext);
            r
        },
        None => path.to_owned(),
    }
}

proof fn lemma_last_sep_append(x: Seq<char>, y: Seq<char>)
    requires
        forall|i: int| 0 <= i < y.len() ==> !is_sep(#[trigger] y[i]),
    ensures
        last_sep(x + y) == last_sep(x),
    decreases y.len(),
{
    if y.len() > 0 {
        assert((x + y).drop_last() =~= x + y.drop_last());
        assert((x + y).last() == y[y.len() - 1]);
        lemma_last_sep_append(x, y.drop_last());
    } else {
        assert(x + y =~= x);
    }
}

proof fn lemma_last_dot_append(x: Seq<char>, y: Seq<char>)
    requires
        forall|i: int| 0 <= i < y.len() ==> #[trigger] y[i] != '.',
    ensures
        last_dot(x + y) == last_dot(x),
    decreases y.len(),
{
    if y.len() > 0 {
        assert((x + y).drop_last() =~= x + y.drop_last());
        assert((x + y).last() == y[y.len() - 1]);
        lemma_last_dot_append(x, y.drop_last());
    } else {
        assert(x + y =~= x);
    }
}

/// The stem of `<dir>/<name>.<ext>` is `name`, when `name` is not empty and
/// neither `name` nor `ext` holds a separator or a `.`, whatever `dir` is.
pub proof fn law_file_stem_of_joined(dir: Seq<char>, name: Seq<char>, ext: Seq<char>)
    requires
        name.len() > 0,
        forall|i: int| 0 <= i < name.len() ==> !is_sep(#[trigger] name[i]) && name[i] != '.',
        forall|i: int| 0 <= i < ext.len() ==> !is_sep(#[trigger] ext[i]) && ext[i] != '.',
    ensures
        file_stem(dir + seq!['/'] + name + seq!['.'] + ext) == Some(name),
{
    let head = dir + seq!['/'];
    let tail = name + seq!['.'] + ext;
    let p = dir + seq!['/'] + name + seq!['.'] + ext;
    assert(p =~= head + tail);
    assert(p.len() > 1 && !is_sep(p.last())) by {
        if ext.len() > 0 {
            assert(p.last() == ext[ext.len() - 1]);
        } else {
            assert(p.last() == '.');
        }
    }
    assert(strip_trailing_seps(p) == p);
    assert forall|i: int| 0 <= i < tail.len() implies !is_sep(#[trigger] tail[i]) by {
        if i < name.len() {
            assert(tail[i] == name[i]);
        } else if i > name.len() {
            assert(tail[i] == ext[i - name.len() - 1]);
        }
    }
    lemma_last_sep_append(head, tail);
    assert(head.drop_last() =~= dir);
    assert(last_sep(head) == dir.len());
    assert(p.skip(dir.len() + 1int) =~= tail);
    assert(tail != seq!['.', '.']) by {
        if tail == seq!['.', '.'] {
            assert(tail[0] == name[0]);
        }
    }
    assert(file_name(p) == Some(tail));
    let nd = name + seq!['.'];
    assert(tail =~= nd + ext);
    lemma_last_dot_append(nd, ext);
    assert(nd.last() == '.');
    assert(last_dot(nd) == name.len());
    assert(tail.take(name.len() as int) =~= name);
}

} // verus!
