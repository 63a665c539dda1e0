//! Character-level string helpers shared by the formatting and path modules.
use vstd::prelude::*;
use vstd::string::StrSliceExecFns;

verus! {

/// Relies on `String::push`: appends one character at the end.
#[verifier::external_body]
pub fn push_char(s: &mut String, c: char)
    ensures
        final(s)@ == old(s)@.push(c),
{
    s.push(c);
}

/// Copies the characters of `s` into a vector.
pub fn chars_of(s: &str) -> (r: Vec<char>)
    ensures
        r@ == s@,
{
    let n = s.unicode_len();
    let mut r: Vec<char> = Vec::new();
    let mut i: usize = 0;
    while i < n
        invariant
            n == s@.len(),
            i <= n,
            r@ == s@.subrange(0, i as int),
        decreases n - i,
    {
        r.push(s.get_char(i));
        i = i + 1;
    }
    assert(r@ =~= s@);
    r
}

/// Appends the characters of `v[from..to]` to `out`.
pub fn push_chars(out: &mut String, v: &Vec<char>, from: usize, to: usize)
    requires
        from <= to <= v@.len(),
    ensures
        final(out)@ == old(out)@ + v@.subrange(from as int, to as int),
{
    let mut i: usize = from;
    while i < to
        invariant
            from <= i <= to <= v@.len(),
            out@ == old(out)@ + v@.subrange(from as int, i as int),
        decreases to - i,
    {
        push_char(out, v[i]);
        assert(v@.subrange(from as int, i + 1) =~= v@.subrange(from as int, i as int).push(v@[i as int]));
        i = i + 1;
    }
}

/// Builds a string holding the characters of `v[from..to]`.
pub fn string_of(v: &Vec<char>, from: usize, to: usize) -> (r: String)
    requires
        from <= to <= v@.len(),
    ensures
        r@ == v@.subrange(from as int, to as int),
{
    let mut out = String::new();
    push_chars(&mut out, v, from, to);
    assert(out@ =~= v@.subrange(from as int, to as int));
    out
}

/// Characters with the Unicode White_Space property.
pub open spec fn is_space(c: char) -> bool {
    ('\u{9}' <= c && c <= '\u{d}') || c == ' ' || c == '\u{85}' || c == '\u{a0}' || c
        == '\u{1680}' || ('\u{2000}' <= c && c <= '\u{200a}') || c == '\u{2028}' || c
        == '\u{2029}' || c == '\u{202f}' || c == '\u{205f}' || c == '\u{3000}'
}

pub fn is_space_char(c: char) -> (r: bool)
    ensures
        r == is_space(c),
{
    ('\u{9}' <= c && c <= '\u{d}') || c == ' ' || c == '\u{85}' || c == '\u{a0}' || c
        == '\u{1680}' || ('\u{2000}' <= c && c <= '\u{200a}') || c == '\u{2028}' || c
        == '\u{2029}' || c == '\u{202f}' || c == '\u{205f}' || c == '\u{3000}'
}

/// Index of the first character that is not blank (or `s.len()`).
pub open spec fn trim_start_index(s: Seq<char>) -> int
    decreases s.len(),
{
    if s.len() == 0 {
        0
    } else if is_space(s[0]) {
        1 + trim_start_index(s.drop_first())
    } else {
        0
    }
}

/// Length of `s` once trailing blank characters are removed.
pub open spec fn trim_end_len(s: Seq<char>) -> int
    decreases s.len(),
{
    if s.len() == 0 {
        0
    } else if is_space(s.last()) {
        trim_end_len(s.drop_last())
    } else {
        s.len() as int
    }
}

/// `s` without leading and trailing blank characters.
pub open spec fn trimmed(s: Seq<char>) -> Seq<char> {
    let t = s.subrange(trim_start_index(s), s.len() as int);
    t.subrange(0, trim_end_len(t))
}

/// Bounds `[start, end)` of `v` without its leading and trailing blanks.
pub fn trim_bounds(v: &Vec<char>) -> (r: (usize, usize))
    ensures
        r.0 <= r.1 <= v@.len(),
        v@.subrange(r.0 as int, r.1 as int) == trimmed(v@),
{
    let n = v.len();
    let mut start: usize = 0;
    assert(v@.subrange(0, n as int) =~= v@);
    while start < n && is_space_char(v[start])
        invariant
            start <= n == v@.len(),
            trim_start_index(v@) == start + trim_start_index(v@.subrange(start as int, n as int)),
        decreases n - start,
    {
        let ghost rest = v@.subrange(start as int, n as int);
        assert(rest.drop_first() =~= v@.subrange(start + 1, n as int));
        assert(rest[0] == v@[start as int]);
        start = start + 1;
    }
    proof {
        let rest = v@.subrange(start as int, n as int);
        if start < n {
            assert(rest[0] == v@[start as int]);
        }
    }
    let ghost t = v@.subrange(start as int, n as int);
    let mut end: usize = n;
    while end > start && is_space_char(v[end - 1])
        invariant
            start <= end <= n == v@.len(),
            t == v@.subrange(start as int, n as int),
            trim_end_len(t) == trim_end_len(v@.subrange(start as int, end as int)),
        decreases end,
    {
        let ghost cur = v@.subrange(start as int, end as int);
        assert(cur.drop_last() =~= v@.subrange(start as int, end - 1));
        end = end - 1;
    }
    proof {
        let cur = v@.subrange(start as int, end as int);
        if end > start {
            assert(cur.last() == v@[end - 1]);
        }
        assert(trim_end_len(t) == end - start);
        assert(t.subrange(0, end - start) =~= v@.subrange(start as int, end as int));
    }
    (start, end)
}

/// `s` ends with `suffix`.
pub open spec fn ends_with(s: Seq<char>, suffix: Seq<char>) -> bool {
    suffix.len() <= s.len() && s.subrange(s.len() - suffix.len(), s.len() as int) == suffix
}

/// `needle` occurs in `hay` starting at `i`.
pub open spec fn occurs_at(hay: Seq<char>, needle: Seq<char>, i: int) -> bool {
    0 <= i && i + needle.len() <= hay.len() && hay.subrange(i, i + needle.len()) == needle
}

/// `needle` occurs somewhere in `hay`.
pub open spec fn contains_seq(hay: Seq<char>, needle: Seq<char>) -> bool {
    exists|i: int| occurs_at(hay, needle, i)
}

/// Whether `v[start..start + w.len()]` equals `w`.
fn matches_at(v: &Vec<char>, w: &Vec<char>, start: usize) -> (r: bool)
    requires
        start + w@.len() <= v@.len(),
    ensures
        r == (v@.subrange(start as int, start + w@.len()) == w@),
{
    let mut i: usize = 0;
    while i < w.len()
        invariant
            start + w@.len() <= v.len(),
            i <= w@.len(),
            forall|j: int| 0 <= j < i ==> v@[start + j] == w@[j],
        decreases w.len() - i,
    {
        if v[start + i] != w[i] {
            assert(v@.subrange(start as int, start + w@.len())[i as int] != w@[i as int]);
            return false;
        }
        i = i + 1;
    }
    assert(v@.subrange(start as int, start + w@.len()) =~= w@);
    true
}

/// Whether `s` ends with `suffix`.
pub fn str_ends_with(s: &str, suffix: &str) -> (r: bool)
    ensures
        r == ends_with(s@, suffix@),
{
    let v = chars_of(s);
    let w = chars_of(suffix);
    if w.len() > v.len() {
        return false;
    }
    matches_at(&v, &w, v.len() - w.len())
}

/// Whether `needle` occurs in `hay`.
pub fn str_contains(hay: &str, needle: &str) -> (r: bool)
    ensures
        r == contains_seq(hay@, needle@),
{
    let v = chars_of(hay);
    let w = chars_of(needle);
    if w.len() > v.len() {
        assert forall|i: int| !occurs_at(hay@, needle@, i) by {}
        return false;
    }
    let last = v.len() - w.len();
    let mut i: usize = 0;
    while i < last
        invariant
            v@ == hay@,
            w@ == needle@,
            last + w@.len() == v@.len(),
            i <= last,
            forall|j: int| 0 <= j < i ==> !occurs_at(hay@, needle@, j),
        decreases last - i,
    {
        if matches_at(&v, &w, i) {
            assert(occurs_at(hay@, needle@, i as int));
            return true;
        }
        i = i + 1;
    }
    if matches_at(&v, &w, last) {
        assert(occurs_at(hay@, needle@, last as int));
        return true;
    }
    assert forall|j: int| !occurs_at(hay@, needle@, j) by {
        if 0 <= j && j + needle@.len() <= hay@.len() {
            assert(j <= last);
        }
    }
    false
}

pub open spec fn is_digit(c: char) -> bool {
    '0' <= c && c <= '9'
}

/// Value of a string of decimal digits.
pub open spec fn digits_value(s: Seq<char>) -> nat
    decreases s.len(),
{
    if s.len() == 0 {
        0
    } else {
        digits_value(s.drop_last()) * 10 + (s.last() as nat - '0' as nat) as nat
    }
}

/// The digits of a number written with an optional leading `+`.
pub open spec fn unsigned_digits(s: Seq<char>) -> Seq<char> {
    if s.len() > 0 && s[0] == '+' {
        s.drop_first()
    } else {
        s
    }
}

/// What parsing `s` as an unsigned integer no greater than `max` gives, as
/// the standard library parses integers: an optional `+`, then at least one
/// digit, and a value in range.
pub open spec fn parsed_unsigned(s: Seq<char>, max: u64) -> Option<u64> {
    let d = unsigned_digits(s);
    if d.len() > 0 && (forall|i: int| 0 <= i < d.len() ==> is_digit(#[trigger] d[i]))
        && digits_value(d) <= max {
        Some(digits_value(d) as u64)
    } else {
        None
    }
}

proof fn lemma_digits_grow(d: Seq<char>, i: int)
    requires
        0 <= i <= d.len(),
        forall|j: int| 0 <= j < d.len() ==> is_digit(#[trigger] d[j]),
    ensures
        digits_value(d.subrange(0, i)) <= digits_value(d),
    decreases d.len() - i,
{
    if i < d.len() {
        lemma_digits_grow(d, i + 1);
        let p = d.subrange(0, i + 1);
        assert(p.drop_last() =~= d.subrange(0, i));
    } else {
        assert(d.subrange(0, i) =~= d);
    }
}

/// Parses `v[from..to]` as an unsigned integer no greater than `max`.
pub fn parse_unsigned(v: &Vec<char>, from: usize, to: usize, max: u64) -> (r: Option<u64>)
    requires
        from <= to <= v@.len(),
    ensures
        r == parsed_unsigned(v@.subrange(from as int, to as int), max),
{
    let ghost s = v@.subrange(from as int, to as int);
    let start: usize = if from < to && v[from] == '+' { from + 1 } else { from };
    let ghost d = unsigned_digits(s);
    assert(d =~= v@.subrange(start as int, to as int));
    if start >= to {
        assert(d.len() == 0);
        return None;
    }
    let mut value: u64 = 0;
    let mut i: usize = start;
    while i < to
        invariant
            from <= start <= i <= to <= v@.len(),
            s == v@.subrange(from as int, to as int),
            d == v@.subrange(start as int, to as int),
            d == unsigned_digits(s),
            forall|j: int| 0 <= j < i - start ==> is_digit(#[trigger] d[j]),
            value == digits_value(d.subrange(0, i - start)),
            value <= max,
        decreases to - i,
    {
        let c = v[i];
        assert(c == d[i - start]);
        if !('0' <= c && c <= '9') {
            assert(!is_digit(d[i - start]));
            assert(!(forall|k: int| 0 <= k < d.len() ==> is_digit(#[trigger] d[k])));
            return None;
        }
        let digit = (c as u32 - '0' as u32) as u64;
        let ghost p = d.subrange(0, i - start + 1);
        assert(p.drop_last() =~= d.subrange(0, i - start));
        assert(p.last() == c);
        if digit > max || value > (max - digit) / 10 {
            proof {
                if digit <= max {
                    assert(value * 10 + digit > max) by (nonlinear_arith)
                        requires
                            value > (max - digit) / 10,
                            digit <= max,
                    ;
                }
                if forall|k: int| 0 <= k < d.len() ==> is_digit(#[trigger] d[k]) {
                    lemma_digits_grow(d, i - start + 1);
                }
            }
            return None;
        }
        assert(value * 10 + digit <= max) by (nonlinear_arith)
            requires
                value <= (max - digit) / 10,
                digit <= max,
        ;
        value = value * 10 + digit;
        assert(value == digits_value(p));
        i = i + 1;
    }
    assert(d.subrange(0, d.len() as int) =~= d);
    Some(value)
}

/// Copies `v[from..to]`.
pub fn sub_chars(v: &Vec<char>, from: usize, to: usize) -> (r: Vec<char>)
    requires
        from <= to <= v@.len(),
    ensures
        r@ == v@.subrange(from as int, to as int),
{
    let mut r: Vec<char> = Vec::new();
    let mut i: usize = from;
    while i < to
        invariant
            from <= i <= to <= v@.len(),
            r@ == v@.subrange(from as int, i as int),
        decreases to - i,
    {
        r.push(v[i]);
        assert(v@.subrange(from as int, i + 1) =~= v@.subrange(from as int, i as int).push(v@[i as int]));
        i = i + 1;
    }
    r
}

/// `v` without leading and trailing blanks.
pub fn trim_chars(v: &Vec<char>) -> (r: Vec<char>)
    ensures
        r@ == trimmed(v@),
{
    let (a, b) = trim_bounds(v);
    sub_chars(v, a, b)
}

/// The part of `s` before the first `c` (all of `s` when there is none).
pub open spec fn before_char(s: Seq<char>, c: char) -> Seq<char>
    decreases s.len(),
{
    if s.len() == 0 || s[0] == c {
        Seq::empty()
    } else {
        seq![s[0]] + before_char(s.drop_first(), c)
    }
}

proof fn lemma_before_char(s: Seq<char>, c: char, i: int)
    requires
        0 <= i <= s.len(),
        forall|j: int| 0 <= j < i ==> s[j] != c,
        i == s.len() || s[i] == c,
    ensures
        before_char(s, c) == s.take(i),
    decreases i,
{
    if i > 0 {
        assert forall|j: int| 0 <= j < i - 1 implies s.drop_first()[j] != c by {
            assert(s.drop_first()[j] == s[j + 1]);
        }
        lemma_before_char(s.drop_first(), c, i - 1);
        assert(s.take(i) =~= seq![s[0]] + s.drop_first().take(i - 1));
    } else {
        assert(s.take(0) =~= Seq::<char>::empty());
    }
}

/// Index of the first `c` in `v`.
pub fn find_char(v: &Vec<char>, c: char) -> (r: Option<usize>)
    ensures
        r is None ==> forall|j: int| 0 <= j < v@.len() ==> v@[j] != c,
        r is None ==> before_char(v@, c) == v@,
        r is Some ==> r->Some_0 < v@.len() && v@[r->Some_0 as int] == c && before_char(v@, c)
            == v@.take(r->Some_0 as int),
{
    let mut i: usize = 0;
    while i < v.len()
        invariant
            i <= v@.len(),
            forall|j: int| 0 <= j < i ==> v@[j] != c,
        decreases v.len() - i,
    {
        if v[i] == c {
            proof {
                lemma_before_char(v@, c, i as int);
            }
            return Some(i);
        }
        i = i + 1;
    }
    proof {
        lemma_before_char(v@, c, v@.len() as int);
        assert(v@.take(v@.len() as int) =~= v@);
    }
    None
}

/// ASCII letters in lower case; other characters unchanged.
pub open spec fn ascii_lower(c: char) -> char {
    if 'A' <= c && c <= 'Z' {
        ((c as u32) + 32) as char
    } else {
        c
    }
}

/// `a` and `b` are equal up to the case of ASCII letters.
pub open spec fn eq_ignore_ascii_case(a: Seq<char>, b: Seq<char>) -> bool {
    a.len() == b.len() && forall|i: int| 0 <= i < a.len() ==> ascii_lower(#[trigger] a[i]) == ascii_lower(b[i])
}

fn ascii_lower_char(c: char) -> (r: char)
    ensures
        r == ascii_lower(c),
{
    if 'A' <= c && c <= 'Z' {
        ((c as u32) + 32) as u8 as char
    } else {
        c
    }
}

/// Whether `v[from..from + w.len()]` equals `w` up to ASCII case.
pub fn matches_ignore_case_at(v: &Vec<char>, w: &Vec<char>, from: usize) -> (r: bool)
    requires
        from + w@.len() <= v@.len(),
    ensures
        r == eq_ignore_ascii_case(v@.subrange(from as int, from + w@.len()), w@),
{
    let ghost sub = v@.subrange(from as int, from + w@.len());
    let mut i: usize = 0;
    while i < w.len()
        invariant
            from + w@.len() <= v.len(),
            sub == v@.subrange(from as int, from + w@.len()),
            i <= w@.len(),
            forall|j: int| 0 <= j < i ==> ascii_lower(#[trigger] sub[j]) == ascii_lower(w@[j]),
        decreases w.len() - i,
    {
        assert(sub[i as int] == v@[from + i]);
        if ascii_lower_char(v[from + i]) != ascii_lower_char(w[i]) {
            return false;
        }
        i = i + 1;
    }
    true
}

/// Compares two character vectors.
pub fn chars_equal(a: &Vec<char>, b: &Vec<char>) -> (r: bool)
    ensures
        r == (a@ == b@),
{
    if a.len() != b.len() {
        return false;
    }
    let r = matches_at(a, b, 0);
    assert(a@.subrange(0, b@.len() as int) =~= a@);
    r
}

} // verus!
