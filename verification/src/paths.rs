//! File paths as the editor handles them: `/`-separated text, read the way
//! `std::path::Path` reads a plain Unix path (trailing slashes ignored, a name
//! that starts with its only dot has no extension).

use vstd::prelude::*;
use crate::text::{trim, trim_range};
use crate::unicode::{chars_of, string_of, string_of_range};

verus! {

/// `p` without trailing slashes; a lone `/` stays.
pub open spec fn strip_trailing(p: Seq<char>) -> Seq<char>
    decreases p.len(),
{
    if p.len() > 1 && p.last() == '/' {
        strip_trailing(p.drop_last())
    } else {
        p
    }
}

/// The index of the last `c` in `s`, or -1.
pub open spec fn last_index(s: Seq<char>, c: char) -> int
    decreases s.len(),
{
    if s.len() == 0 {
        -1
    } else if s.last() == c {
        s.len() - 1
    } else {
        last_index(s.drop_last(), c)
    }
}

/// `.` and `..` name a directory, never a file.
pub open spec fn is_dot_name(n: Seq<char>) -> bool {
    ||| n.len() == 1 && n[0] == '.'
    ||| n.len() == 2 && n[0] == '.' && n[1] == '.'
}

/// The last component of `p`, unless it is empty, `.` or `..`.
pub open spec fn file_name(p: Seq<char>) -> Option<Seq<char>> {
    let q = strip_trailing(p);
    let name = q.skip(last_index(q, '/') + 1);
    if name.len() == 0 || is_dot_name(name) {
        None
    } else {
        Some(name)
    }
}

/// Everything before the last component: `None` for `/` and the empty path,
/// the empty path for a bare name.
pub open spec fn parent(p: Seq<char>) -> Option<Seq<char>> {
    let q = strip_trailing(p);
    let i = last_index(q, '/');
    if q.len() == 0 || (q.len() == 1 && q[0] == '/') {
        None
    } else if i < 0 {
        Some(Seq::empty())
    } else if i == 0 {
        Some(seq!['/'])
    } else {
        Some(q.take(i))
    }
}

/// The part of the file name after its last dot; none when there is no dot or
/// the only dot leads the name.
pub open spec fn extension(p: Seq<char>) -> Option<Seq<char>> {
    match file_name(p) {
        None => None,
        Some(n) => {
            let d = last_index(n, '.');
            if d <= 0 {
                None
            } else {
                Some(n.skip(d + 1))
            }
        },
    }
}

/// The file name without its extension.
pub open spec fn file_stem(p: Seq<char>) -> Option<Seq<char>> {
    match file_name(p) {
        None => None,
        Some(n) => {
            let d = last_index(n, '.');
            if d <= 0 {
                Some(n)
            } else {
                Some(n.take(d))
            }
        },
    }
}

/// `p` with its extension replaced by `ext` (dropped when `ext` is empty); `p`
/// itself when it names no file.
pub open spec fn with_extension(p: Seq<char>, ext: Seq<char>) -> Seq<char> {
    match file_stem(p) {
        None => p,
        Some(stem) => {
            let q = strip_trailing(p);
            let base = q.take(last_index(q, '/') + 1) + stem;
            if ext.len() == 0 {
                base
            } else {
                base + seq!['.'] + ext
            }
        },
    }
}

/// `name` under `dir`; an absolute `name` stands alone.
pub open spec fn join(dir: Seq<char>, name: Seq<char>) -> Seq<char> {
    if name.len() > 0 && name[0] == '/' {
        name
    } else if dir.len() == 0 {
        name
    } else if dir.last() == '/' {
        dir + name
    } else {
        dir + seq!['/'] + name
    }
}

/// Where an export typed as `name` goes, for the video at `source`: a bare
/// name lands in the source's folder, a name with a directory is kept as it
/// is, and a name without an extension takes the source's.
pub open spec fn output_path(source: Seq<char>, name: Seq<char>) -> Seq<char> {
    let typed = trim(name);
    let has_dir = (typed.len() > 0 && typed[0] == '/') || (parent(typed) matches Some(d) && d.len()
        > 0);
    let out = if has_dir {
        typed
    } else {
        match parent(source) {
            Some(dir) => join(dir, typed),
            None => typed,
        }
    };
    if extension(out) is None {
        match extension(source) {
            Some(e) => with_extension(out, e),
            None => out,
        }
    } else {
        out
    }
}

proof fn lemma_last_index(s: Seq<char>, c: char)
    ensures
        -1 <= last_index(s, c) < s.len(),
        last_index(s, c) >= 0 ==> s[last_index(s, c)] == c,
        forall|j: int| last_index(s, c) < j < s.len() ==> s[j] != c,
    decreases s.len(),
{
    if s.len() > 0 && s.last() != c {
        let t = s.drop_last();
        lemma_last_index(t, c);
        assert forall|j: int| last_index(s, c) < j < s.len() implies s[j] != c by {
            if j < t.len() {
                assert(s[j] == t[j]);
            }
        }
    }
}

proof fn lemma_strip_prefix(p: Seq<char>)
    ensures
        strip_trailing(p).len() <= p.len(),
        strip_trailing(p) == p.take(strip_trailing(p).len() as int),
        strip_trailing(p).len() == 0 <==> p.len() == 0,
    decreases p.len(),
{
    if p.len() > 1 && p.last() == '/' {
        lemma_strip_prefix(p.drop_last());
        assert(p.drop_last().take(strip_trailing(p).len() as int) =~= p.take(
            strip_trailing(p).len() as int,
        ));
    } else {
        assert(p.take(p.len() as int) =~= p);
    }
}

/// The length `p` keeps once trailing slashes are stripped.
fn stripped_len(p: &Vec<char>) -> (n: usize)
    ensures
        n <= p.len(),
        strip_trailing(p@) == p@.take(n as int),
{
    let mut n = p.len();
    proof {
        assert(p@.take(n as int) =~= p@);
    }
    while n > 1 && p[n - 1] == '/'
        invariant
            n <= p.len(),
            strip_trailing(p@) == strip_trailing(p@.take(n as int)),
        decreases n,
    {
        proof {
            assert(p@.take(n as int).drop_last() =~= p@.take(n - 1));
        }
        n -= 1;
    }
    n
}

/// Where the last `c` in `p[from..to]` is.
fn last_in(p: &Vec<char>, from: usize, to: usize, c: char) -> (r: Option<usize>)
    requires
        from <= to <= p.len(),
    ensures
        match r {
            Some(i) => from <= i < to && last_index(p@.subrange(from as int, to as int), c) == i - from,
            None => last_index(p@.subrange(from as int, to as int), c) == -1,
        },
{
    let mut i = to;
    while i > from
        invariant
            from <= i <= to <= p.len(),
            last_index(p@.subrange(from as int, to as int), c) == last_index(
                p@.subrange(from as int, i as int),
                c,
            ),
        decreases i,
    {
        if p[i - 1] == c {
            return Some(i - 1);
        }
        proof {
            assert(p@.subrange(from as int, i as int).drop_last() =~= p@.subrange(
                from as int,
                i - 1,
            ));
        }
        i -= 1;
    }
    None
}

/// The range of the file name of `p` within `p`, when it has one.
fn name_range(p: &Vec<char>) -> (r: Option<(usize, usize)>)
    ensures
        match r {
            Some((a, b)) => a < b <= p.len() && file_name(p@) == Some(p@.subrange(a as int, b as int))
                && strip_trailing(p@) == p@.take(b as int) && last_index(strip_trailing(p@), '/') + 1
                == a,
            None => file_name(p@) is None,
        },
{
    let n = stripped_len(p);
    let li = last_in(p, 0, n, '/');
    let a = match li {
        Some(i) => i + 1,
        None => 0,
    };
    proof {
        let q = p@.take(n as int);
        assert(p@.subrange(0, n as int) =~= q);
        lemma_last_index(q, '/');
        assert(q.skip(last_index(q, '/') + 1) =~= p@.subrange(a as int, n as int));
    }
    if a == n || (n - a == 1 && p[a] == '.') || (n - a == 2 && p[a] == '.' && p[a + 1] == '.') {
        None
    } else {
        Some((a, n))
    }
}

/// Where the last dot of the file name of `p` is, when the name has an
/// extension: `(a, d, b)` with the name at `a..b` and the dot at `d`.
fn dot_range(p: &Vec<char>) -> (r: Option<(usize, usize, usize)>)
    ensures
        match r {
            Some((a, d, b)) => a < d < b <= p.len() && file_name(p@) == Some(p@.subrange(
                a as int,
                b as int,
            )) && extension(p@) == Some(p@.subrange(d + 1, b as int)) && file_stem(p@) == Some(
                p@.subrange(a as int, d as int),
            ) && strip_trailing(p@) == p@.take(b as int) && last_index(strip_trailing(p@), '/')
                + 1 == a,
            None => extension(p@) is None && (file_name(p@) == file_stem(p@)),
        },
{
    match name_range(p) {
        None => None,
        Some((a, b)) => {
            let d = last_in(p, a, b, '.');
            proof {
                let nm = p@.subrange(a as int, b as int);
                lemma_last_index(nm, '.');
                if let Some(i) = d {
                    assert(nm.skip(i - a + 1) =~= p@.subrange(i + 1, b as int));
                    assert(nm.take(i - a) =~= p@.subrange(a as int, i as int));
                }
            }
            match d {
                Some(i) => {
                    if i == a {
                        None
                    } else {
                        Some((a, i, b))
                    }
                },
                None => None,
            }
        },
    }
}

/// The final component of `path`, if it names a file.
pub fn file_name_of(path: &str) -> (r: Option<String>)
    ensures
        match r {
            Some(s) => file_name(path@) == Some(s@),
            None => file_name(path@) is None,
        },
{
    let p = chars_of(path);
    match name_range(&p) {
        Some((a, b)) => Some(string_of_range(&p, a, b)),
        None => None,
    }
}

/// The extension of `path`'s file name, if it has one.
pub fn extension_of(path: &str) -> (r: Option<String>)
    ensures
        match r {
            Some(s) => extension(path@) == Some(s@),
            None => extension(path@) is None,
        },
{
    let p = chars_of(path);
    match dot_range(&p) {
        Some((_a, d, b)) => Some(string_of_range(&p, d + 1, b)),
        None => None,
    }
}

/// The file name of `path` without its extension, if it names a file.
pub fn file_stem_of(path: &str) -> (r: Option<String>)
    ensures
        match r {
            Some(s) => file_stem(path@) == Some(s@),
            None => file_stem(path@) is None,
        },
{
    let p = chars_of(path);
    match dot_range(&p) {
        Some((a, d, _b)) => Some(string_of_range(&p, a, d)),
        None => match name_range(&p) {
            Some((a, b)) => Some(string_of_range(&p, a, b)),
            None => None,
        },
    }
}

/// The characters of `parent(p)`.
fn parent_chars(p: &Vec<char>) -> (r: Option<Vec<char>>)
    ensures
        match r {
            Some(v) => parent(p@) == Some(v@),
            None => parent(p@) is None,
        },
{
    let n = stripped_len(p);
    let ghost q = p@.take(n as int);
    if n == 0 || (n == 1 && p[0] == '/') {
        return None;
    }
    let li = last_in(p, 0, n, '/');
    proof {
        assert(p@.subrange(0, n as int) =~= q);
    }
    match li {
        None => Some(Vec::new()),
        Some(i) => {
            if i == 0 {
                let mut v: Vec<char> = Vec::new();
                v.push('/');
                proof {
                    assert(v@ =~= seq!['/']);
                }
                Some(v)
            } else {
                let mut v: Vec<char> = Vec::new();
                let mut k: usize = 0;
                while k < i
                    invariant
                        k <= i < n <= p.len(),
                        v@ == p@.take(k as int),
                    decreases i - k,
                {
                    v.push(p[k]);
                    k += 1;
                    proof {
                        assert(v@ =~= p@.take(k as int));
                    }
                }
                proof {
                    assert(q.take(i as int) =~= p@.take(i as int));
                }
                Some(v)
            }
        },
    }
}

/// The folder `path` is in: `None` for `/` and the empty path, the empty
/// string for a bare name.
pub fn parent_of(path: &str) -> (r: Option<String>)
    ensures
        match r {
            Some(s) => parent(path@) == Some(s@),
            None => parent(path@) is None,
        },
{
    let p = chars_of(path);
    match parent_chars(&p) {
        Some(v) => Some(string_of(v.as_slice())),
        None => None,
    }
}

/// `p` with its extension replaced by `ext`.
fn with_extension_chars(p: &Vec<char>, ext: &Vec<char>) -> (r: Vec<char>)
    ensures
        r@ == with_extension(p@, ext@),
{
    let keep: usize = match dot_range(p) {
        Some((_a, d, _b)) => d,
        None => match name_range(p) {
            Some((_a, b)) => b,
            None => {
                return p.clone();
            },
        },
    };
    proof {
        let q = strip_trailing(p@);
        lemma_last_index(q, '/');
        let base = q.take(last_index(q, '/') + 1) + file_stem(p@).unwrap();
        assert(base =~= p@.take(keep as int));
    }
    let mut r: Vec<char> = Vec::new();
    let mut k: usize = 0;
    while k < keep
        invariant
            keep <= p.len(),
            k <= keep,
            r@ == p@.take(k as int),
        decreases keep - k,
    {
        r.push(p[k]);
        k += 1;
        proof {
            assert(r@ =~= p@.take(k as int));
        }
    }
    if ext.len() > 0 {
        let ghost base = r@;
        r.push('.');
        let mut j: usize = 0;
        while j < ext.len()
            invariant
                j <= ext.len(),
                r@ == base + seq!['.'] + ext@.take(j as int),
            decreases ext.len() - j,
        {
            r.push(ext[j]);
            j += 1;
            proof {
                assert(r@ =~= base + seq!['.'] + ext@.take(j as int));
            }
        }
        proof {
            assert(ext@.take(j as int) =~= ext@);
        }
    }
    r
}

/// `path` with its extension replaced by `ext` (`Path::with_extension`).
pub fn with_extension_of(path: &str, ext: &str) -> (r: String)
    ensures
        r@ == with_extension(path@, ext@),
{
    let p = chars_of(path);
    let e = chars_of(ext);
    let v = with_extension_chars(&p, &e);
    string_of(v.as_slice())
}

/// `name` under `dir`; an absolute `name` stands alone.
pub fn join_of(dir: &str, name: &str) -> (r: String)
    ensures
        r@ == join(dir@, name@),
{
    let d = chars_of(dir);
    let n = chars_of(name);
    let v = join_chars(&d, &n);
    string_of(v.as_slice())
}

/// `name` under `dir`.
fn join_chars(dir: &Vec<char>, name: &Vec<char>) -> (r: Vec<char>)
    ensures
        r@ == join(dir@, name@),
{
    if (name.len() > 0 && name[0] == '/') || dir.len() == 0 {
        return name.clone();
    }
    let mut r = dir.clone();
    if dir[dir.len() - 1] != '/' {
        r.push('/');
    }
    let ghost base = r@;
    let mut j: usize = 0;
    while j < name.len()
        invariant
            j <= name.len(),
            r@ == base + name@.take(j as int),
        decreases name.len() - j,
    {
        r.push(name[j]);
        j += 1;
        proof {
            assert(r@ =~= base + name@.take(j as int));
        }
    }
    proof {
        assert(name@.take(j as int) =~= name@);
        if dir@.last() != '/' {
            assert(base =~= dir@ + seq!['/']);
        }
    }
    r
}

/// Resolve a typed name to an output path: a bare name lands in `source`'s
/// folder; a name with a directory or absolute path is used as-is. If no
/// extension is given, `source`'s extension is appended.
pub fn resolve_output(source: &str, name: &str) -> (r: String)
    ensures
        r@ == output_path(source@, name@),
{
    let raw = chars_of(name);
    let (a, b) = trim_range(&raw, 0, raw.len());
    let mut typed: Vec<char> = Vec::new();
    let mut k = a;
    while k < b
        invariant
            a <= k <= b <= raw.len(),
            typed@ == raw@.subrange(a as int, k as int),
        decreases b - k,
    {
        typed.push(raw[k]);
        k += 1;
        proof {
            assert(typed@ =~= raw@.subrange(a as int, k as int));
        }
    }
    proof {
        assert(raw@.subrange(0, raw.len() as int) =~= name@);
    }
    let has_dir = if typed.len() > 0 && typed[0] == '/' {
        true
    } else {
        match parent_chars(&typed) {
            Some(d) => d.len() > 0,
            None => false,
        }
    };
    let src = chars_of(source);
    let out = if has_dir {
        typed
    } else {
        match parent_chars(&src) {
            Some(dir) => join_chars(&dir, &typed),
            None => typed,
        }
    };
    let out = match dot_range(&out) {
        Some(_) => out,
        None => match dot_range(&src) {
            Some((_a, d, e)) => {
                let mut ext: Vec<char> = Vec::new();
                let mut j = d + 1;
                while j < e
                    invariant
                        d + 1 <= j <= e <= src.len(),
                        ext@ == src@.subrange(d + 1, j as int),
                    decreases e - j,
                {
                    ext.push(src[j]);
                    j += 1;
                    proof {
                        assert(ext@ =~= src@.subrange(d + 1, j as int));
                    }
                }
                with_extension_chars(&out, &ext)
            },
            None => out,
        },
    };
    string_of(out.as_slice())
}

/// Stripping trailing slashes off `a + b` strips them off `b` alone, when `b`
/// keeps something that does not end in a slash.
proof fn lemma_strip_concat(a: Seq<char>, b: Seq<char>)
    requires
        strip_trailing(b).len() >= 1,
        strip_trailing(b).last() != '/',
    ensures
        strip_trailing(a + b) == a + strip_trailing(b),
    decreases b.len(),
{
    if b.len() > 1 && b.last() == '/' {
        assert((a + b).drop_last() =~= a + b.drop_last());
        lemma_strip_concat(a, b.drop_last());
    } else {
        assert((a + b).last() == b.last());
    }
}

/// A stretch without `c` does not move the last `c`.
proof fn lemma_last_index_concat(a: Seq<char>, b: Seq<char>, c: char)
    requires
        forall|j: int| 0 <= j < b.len() ==> b[j] != c,
    ensures
        last_index(a + b, c) == last_index(a, c),
    decreases b.len(),
{
    if b.len() > 0 {
        assert((a + b).drop_last() =~= a + b.drop_last());
        assert((a + b).last() == b.last());
        lemma_last_index_concat(a, b.drop_last(), c);
    } else {
        assert(a + b =~= a);
    }
}

/// A name typed with an extension keeps it: the output has the very file
/// name that was typed, extension and all, whatever the source's extension;
/// a name typed without a folder goes into the source's folder.
pub proof fn law_typed_extension_kept(source: Seq<char>, name: Seq<char>)
    requires
        extension(trim(name)) is Some,
    ensures
        file_name(output_path(source, name)) == file_name(trim(name)),
        extension(output_path(source, name)) == extension(trim(name)),
        (forall|j: int| 0 <= j < trim(name).len() ==> trim(name)[j] != '/') ==> output_path(source, name)
            == match parent(source) {
            Some(d) => join(d, trim(name)),
            None => trim(name),
        },
{
    let typed = trim(name);
    let q = strip_trailing(typed);
    lemma_last_index(q, '/');
    lemma_strip_prefix(typed);
    let li = last_index(q, '/');
    let has_dir = (typed.len() > 0 && typed[0] == '/') || (parent(typed) matches Some(d) && d.len() > 0);
    let out = if has_dir {
        typed
    } else {
        match parent(source) {
            Some(dir) => join(dir, typed),
            None => typed,
        }
    };
    if (forall|j: int| 0 <= j < typed.len() ==> typed[j] != '/') {
        assert(q == typed.take(q.len() as int));
        if li >= 0 {
            assert(q[li] == typed[li]);
        }
        assert(li < 0);
        assert(!has_dir);
    }
    if !has_dir {
        assert(li < 0) by {
            if li == 0 {
                assert(parent(typed) == Some(seq!['/']));
            } else if li > 0 {
                assert(parent(typed) == Some(q.take(li)));
                assert(q.take(li).len() > 0);
            }
        }
        assert(q.skip(0) =~= q);
        assert(q.len() >= 1);
        assert(q.last() != '/');
        match parent(source) {
            Some(dir) => {
                if dir.len() > 0 {
                    let a = if dir.last() == '/' { dir } else { dir + seq!['/'] };
                    assert(out =~= a + typed);
                    assert(a.last() == '/');
                    lemma_strip_concat(a, typed);
                    lemma_last_index_concat(a, q, '/');
                    assert(last_index(a, '/') == a.len() - 1);
                    assert((a + q).skip(a.len() as int) =~= q);
                    assert(strip_trailing(out) == a + q);
                    assert(file_name(out) == file_name(typed));
                }
            },
            None => {},
        }
    }
    assert(file_name(out) == file_name(typed));
    assert(extension(out) == extension(typed));
}

} // verus!
