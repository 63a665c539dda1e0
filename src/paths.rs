//! Lexical handling of the POSIX paths that peers browse: the form shown to
//! users, a child below a folder, the parent of a folder.
use vstd::prelude::*;
use crate::access::child_path;
use vstd::string::StringExecFns;
use crate::text::{chars_of, string_of, trim_bounds, trimmed};

verus! {

/// Length of `s` without its trailing `/` characters.
pub open spec fn trim_slashes_end_len(s: Seq<char>) -> int
    decreases s.len(),
{
    if s.len() == 0 {
        0
    } else if s.last() == '/' {
        trim_slashes_end_len(s.drop_last())
    } else {
        s.len() as int
    }
}

/// Index of the first character of `s` that is not `/`.
pub open spec fn trim_slashes_start_index(s: Seq<char>) -> int
    decreases s.len(),
{
    if s.len() == 0 {
        0
    } else if s[0] == '/' {
        1 + trim_slashes_start_index(s.drop_first())
    } else {
        0
    }
}

fn trim_slashes_end(v: &Vec<char>, from: usize, to: usize) -> (r: usize)
    requires
        from <= to <= v@.len(),
    ensures
        from <= r <= to,
        r - from == trim_slashes_end_len(v@.subrange(from as int, to as int)),
{
    let mut end = to;
    while end > from && v[end - 1] == '/'
        invariant
            from <= end <= to <= v@.len(),
            trim_slashes_end_len(v@.subrange(from as int, to as int)) == trim_slashes_end_len(
                v@.subrange(from as int, end as int),
            ),
        decreases end,
    {
        let ghost cur = v@.subrange(from as int, end as int);
        assert(cur.drop_last() =~= v@.subrange(from as int, end - 1));
        assert(cur.last() == v@[end - 1]);
        end = end - 1;
    }
    proof {
        let cur = v@.subrange(from as int, end as int);
        if end > from {
            assert(cur.last() == v@[end - 1]);
        }
    }
    end
}

fn trim_slashes_start(v: &Vec<char>, from: usize, to: usize) -> (r: usize)
    requires
        from <= to <= v@.len(),
    ensures
        from <= r <= to,
        r - from == trim_slashes_start_index(v@.subrange(from as int, to as int)),
{
    let mut start = from;
    while start < to && v[start] == '/'
        invariant
            from <= start <= to <= v@.len(),
            trim_slashes_start_index(v@.subrange(from as int, to as int)) == start - from
                + trim_slashes_start_index(v@.subrange(start as int, to as int)),
        decreases to - start,
    {
        let ghost cur = v@.subrange(start as int, to as int);
        assert(cur.drop_first() =~= v@.subrange(start + 1, to as int));
        assert(cur[0] == v@[start as int]);
        start = start + 1;
    }
    proof {
        let cur = v@.subrange(start as int, to as int);
        if start < to {
            assert(cur[0] == v@[start as int]);
        }
    }
    start
}

/// The form of a path shown in a browser: blanks and trailing `/` removed,
/// `/` for the root or an empty path.
pub open spec fn normalized(path: Seq<char>) -> Seq<char> {
    let t = trimmed(path);
    let n = trim_slashes_end_len(t);
    if n == 0 {
        seq!['/']
    } else {
        t.take(n)
    }
}

pub fn normalize_path(path: &str) -> (r: String)
    ensures
        r@ == normalized(path@),
{
    let v = chars_of(path);
    let (a, b) = trim_bounds(&v);
    let e = trim_slashes_end(&v, a, b);
    if e == a {
        proof {
            reveal_strlit("/");
        }
        return String::from_str("/");
    }
    let r = string_of(&v, a, e);
    assert(r@ =~= trimmed(path@).take(e - a));
    r
}

/// `child` without leading and trailing `/`.
pub open spec fn child_name(child: Seq<char>) -> Seq<char> {
    let s = child.skip(trim_slashes_start_index(child));
    s.take(trim_slashes_end_len(s))
}

/// The path of `child` below `base`; with no base, the child itself (or
/// the root).
pub open spec fn joined(base: Seq<char>, child: Seq<char>) -> Seq<char> {
    let c = child_name(child);
    if base.len() == 0 {
        if c.len() == 0 {
            seq!['/']
        } else {
            c
        }
    } else if c.len() == 0 {
        base
    } else {
        child_path(base, c)
    }
}

pub fn join_child_path(base: &str, child: &str) -> (r: String)
    ensures
        r@ == joined(base@, child@),
{
    let b = chars_of(base);
    let c = chars_of(child);
    let s = trim_slashes_start(&c, 0, c.len());
    assert(c@.subrange(0, c@.len() as int) =~= c@);
    assert(c@.subrange(s as int, c@.len() as int) =~= c@.skip(s as int));
    let e = trim_slashes_end(&c, s, c.len());
    let ghost name = child_name(child@);
    assert(name =~= c@.subrange(s as int, e as int));
    if b.len() == 0 {
        if e == s {
            proof {
                reveal_strlit("/");
            }
            return String::from_str("/");
        }
        return string_of(&c, s, e);
    }
    let mut out = string_of(&b, 0, b.len());
    assert(b@.subrange(0, b@.len() as int) =~= b@);
    if e == s {
        return out;
    }
    if b[b.len() - 1] != '/' {
        crate::text::push_char(&mut out, '/');
    }
    crate::text::push_chars(&mut out, &c, s, e);
    assert(out@ =~= child_path(base@, name));
    out
}

/// The folder holding `path`: its last component and the `/` before it
/// removed; the root for a top-level name, for the root and for an empty
/// path.
pub open spec fn parent_of(path: Seq<char>) -> Seq<char> {
    let n = trim_slashes_end_len(path);
    let t = path.take(n);
    let k = last_slash(t);
    if n == 0 || k < 0 {
        seq!['/']
    } else if trim_slashes_end_len(t.take(k)) == 0 {
        seq!['/']
    } else {
        t.take(trim_slashes_end_len(t.take(k)))
    }
}

/// Index of the last `/` of `s`, or -1.
pub open spec fn last_slash(s: Seq<char>) -> int
    decreases s.len(),
{
    if s.len() == 0 {
        -1
    } else if s.last() == '/' {
        s.len() - 1
    } else {
        last_slash(s.drop_last())
    }
}

pub fn parent_path(path: &str) -> (r: String)
    ensures
        r@ == parent_of(path@),
{
    proof {
        reveal_strlit("/");
    }
    let v = chars_of(path);
    assert(v@.subrange(0, v@.len() as int) =~= v@);
    let n = trim_slashes_end(&v, 0, v.len());
    if n == 0 {
        return String::from_str("/");
    }
    let ghost t = v@.take(n as int);
    assert(t.take(n as int) =~= t);
    let mut k = n;
    while k > 0 && v[k - 1] != '/'
        invariant
            0 <= k <= n <= v@.len(),
            t == v@.take(n as int),
            last_slash(t) == last_slash(t.take(k as int)),
        decreases k,
    {
        let ghost cur = t.take(k as int);
        assert(cur.drop_last() =~= t.take(k - 1));
        assert(cur.last() == v@[k - 1]);
        k = k - 1;
    }
    proof {
        if k > 0 {
            assert(t.take(k as int).last() == v@[k - 1]);
        } else {
            assert(t.take(0) =~= Seq::<char>::empty());
        }
    }
    if k == 0 {
        return String::from_str("/");
    }
    let slash = k - 1;
    assert(t.take(slash as int) =~= v@.subrange(0, slash as int));
    let m = trim_slashes_end(&v, 0, slash);
    if m == 0 {
        return String::from_str("/");
    }
    let r = string_of(&v, 0, m);
    assert(r@ =~= t.take(m as int));
    r
}

/// A drive root such as `C:`, `C:\` or `C:/` (blanks around allowed).
pub open spec fn drive_root(path: Seq<char>) -> bool {
    let t = trimmed(path);
    t.len() >= 2 && (('a' <= t[0] && t[0] <= 'z') || ('A' <= t[0] && t[0] <= 'Z')) && t[1] == ':'
        && (t.len() == 2 || (t.len() == 3 && (t[2] == '\\' || t[2] == '/')))
}

pub fn is_windows_drive_root(path: &str) -> (r: bool)
    ensures
        r == drive_root(path@),
{
    let v = chars_of(path);
    let (a, b) = trim_bounds(&v);
    if b - a < 2 {
        return false;
    }
    let d = v[a];
    let letter = ('a' <= d && d <= 'z') || ('A' <= d && d <= 'Z');
    letter && v[a + 1] == ':' && (b - a == 2 || (b - a == 3 && (v[a + 2] == '\\' || v[a + 2] == '/')))
}

/// The drive root in its canonical form: the drive letter and colon of the
/// trimmed path, then `\`; a trimmed path shorter than two characters as
/// it is.
pub open spec fn drive_normalized(path: Seq<char>) -> Seq<char> {
    let t = trimmed(path);
    if t.len() < 2 {
        t
    } else {
        t.take(2).push('\\')
    }
}

pub fn normalize_windows_drive(path: &str) -> (r: String)
    ensures
        r@ == drive_normalized(path@),
{
    let v = chars_of(path);
    let (a, b) = trim_bounds(&v);
    if b - a < 2 {
        return string_of(&v, a, b);
    }
    let mut out = string_of(&v, a, a + 2);
    crate::text::push_char(&mut out, '\\');
    assert(out@ =~= trimmed(path@).take(2).push('\\'));
    out
}

} // verus!
