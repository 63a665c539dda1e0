//! Pieces of the HTTP façade that decide something: the byte range a
//! request asks for.
use vstd::prelude::*;
use crate::text::{
    before_char, chars_of, eq_ignore_ascii_case, find_char, matches_ignore_case_at, parse_unsigned,
    parsed_unsigned, sub_chars, trim_chars, trimmed,
};

verus! {

/// Why a Range header cannot be served.
#[derive(Debug, Clone, Copy, PartialEq, Eq, Structural)]
pub enum RangeParseError {
    /// The header is not a byte range.
    Invalid,
    /// The range lies outside the resource.
    Unsatisfiable,
}

/// The end part of `first = start-end`: after the first `-`, or empty.
pub open spec fn range_end_part(first: Seq<char>) -> Seq<char> {
    let b = before_char(first, '-');
    if b.len() < first.len() {
        trimmed(first.subrange(b.len() + 1 as int, first.len() as int))
    } else {
        Seq::empty()
    }
}

/// The inclusive byte range that the Range header `value` selects in a
/// resource of `total` bytes; only the first range of a list counts.
pub open spec fn range_of(value: Seq<char>, total: u64) -> Result<(u64, u64), RangeParseError> {
    let t = trimmed(value);
    if t.len() < 6 || !eq_ignore_ascii_case(t.take(6), "bytes="@) {
        Err(RangeParseError::Invalid)
    } else {
        let part = trimmed(t.skip(6));
        let first = trimmed(before_char(part, ','));
        let start_s = trimmed(before_char(first, '-'));
        let end_s = range_end_part(first);
        if part.len() == 0 || (start_s.len() == 0 && end_s.len() == 0) {
            Err(RangeParseError::Invalid)
        } else if total == 0 {
            Err(RangeParseError::Unsatisfiable)
        } else if start_s.len() == 0 {
            match parsed_unsigned(end_s, u64::MAX) {
                None => Err(RangeParseError::Invalid),
                Some(n) => if n == 0 {
                    Err(RangeParseError::Unsatisfiable)
                } else {
                    Ok((if n >= total { 0 } else { (total - n) as u64 }, (total - 1) as u64))
                },
            }
        } else {
            match parsed_unsigned(start_s, u64::MAX) {
                None => Err(RangeParseError::Invalid),
                Some(st) => if st >= total {
                    Err(RangeParseError::Unsatisfiable)
                } else {
                    let end_v: Option<u64> = if end_s.len() == 0 {
                        Some((total - 1) as u64)
                    } else {
                        match parsed_unsigned(end_s, u64::MAX) {
                            None => None,
                            Some(e) => Some(if e < total - 1 { e } else { (total - 1) as u64 }),
                        }
                    };
                    match end_v {
                        None => Err(RangeParseError::Invalid),
                        Some(e) => if st > e {
                            Err(RangeParseError::Unsatisfiable)
                        } else {
                            Ok((st, e))
                        },
                    }
                },
            }
        }
    }
}

/// Reads the Range header `value` for a resource of `total` bytes: the
/// first range of the list as inclusive (start, end) offsets; a suffix
/// range `-n` selects the last `n` bytes; an end past the resource is cut
/// to its last byte.
pub fn parse_range_header(value: &str, total: u64) -> (r: Result<(u64, u64), RangeParseError>)
    ensures
        r == range_of(value@, total),
{
    proof {
        reveal_strlit("bytes=");
    }
    let v = chars_of(value);
    let t = trim_chars(&v);
    let prefix = chars_of("bytes=");
    if t.len() < 6 || !matches_ignore_case_at(&t, &prefix, 0) {
        proof {
            if t@.len() >= 6 {
                assert(t@.subrange(0, 6) =~= t@.take(6));
            }
        }
        return Err(RangeParseError::Invalid);
    }
    assert(t@.subrange(0, 6) =~= t@.take(6));
    let rest = sub_chars(&t, 6, t.len());
    assert(rest@ =~= t@.skip(6));
    let part = trim_chars(&rest);
    let first_raw = match find_char(&part, ',') {
        Some(k) => sub_chars(&part, 0, k),
        None => sub_chars(&part, 0, part.len()),
    };
    assert(first_raw@ =~= before_char(part@, ','));
    let first = trim_chars(&first_raw);
    let dash = find_char(&first, '-');
    let (start_s, end_s) = match dash {
        Some(k) => {
            let s_raw = sub_chars(&first, 0, k);
            let e_raw = sub_chars(&first, k + 1, first.len());
            assert(s_raw@ =~= first@.take(k as int));
            (trim_chars(&s_raw), trim_chars(&e_raw))
        },
        None => {
            let s_raw = sub_chars(&first, 0, first.len());
            assert(s_raw@ =~= first@);
            let e: Vec<char> = Vec::new();
            (trim_chars(&s_raw), e)
        },
    };
    proof {
        let b = before_char(first@, '-');
        if dash is None {
            assert(b.len() == first@.len());
            assert(end_s@ =~= range_end_part(first@));
        }
    }
    assert(start_s@ == trimmed(before_char(first@, '-')));
    assert(end_s@ == range_end_part(first@));
    if part.len() == 0 || (start_s.len() == 0 && end_s.len() == 0) {
        return Err(RangeParseError::Invalid);
    }
    if total == 0 {
        return Err(RangeParseError::Unsatisfiable);
    }
    assert(start_s@.subrange(0, start_s@.len() as int) =~= start_s@);
    assert(end_s@.subrange(0, end_s@.len() as int) =~= end_s@);
    if start_s.len() == 0 {
        return match parse_unsigned(&end_s, 0, end_s.len(), u64::MAX) {
            None => Err(RangeParseError::Invalid),
            Some(n) => {
                if n == 0 {
                    Err(RangeParseError::Unsatisfiable)
                } else {
                    Ok((if n >= total { 0 } else { total - n }, total - 1))
                }
            },
        };
    }
    match parse_unsigned(&start_s, 0, start_s.len(), u64::MAX) {
        None => Err(RangeParseError::Invalid),
        Some(st) => {
            if st >= total {
                return Err(RangeParseError::Unsatisfiable);
            }
            let end_v: Option<u64> = if end_s.len() == 0 {
                Some(total - 1)
            } else {
                match parse_unsigned(&end_s, 0, end_s.len(), u64::MAX) {
                    None => None,
                    Some(e) => Some(if e < total - 1 { e } else { total - 1 }),
                }
            };
            match end_v {
                None => Err(RangeParseError::Invalid),
                Some(e) => {
                    if st > e {
                        Err(RangeParseError::Unsatisfiable)
                    } else {
                        Ok((st, e))
                    }
                },
            }
        },
    }
}

/// Value of cookie `name` in the Cookie header `header`: the first
/// `name=value` pair among the `;`-separated parts, blanks around a part
/// ignored.
pub open spec fn cookie_in(header: Seq<char>, name: Seq<char>) -> Option<Seq<char>>
    decreases header.len(),
{
    let part = before_char(header, ';');
    let t = trimmed(part);
    let key = before_char(t, '=');
    if key.len() < t.len() && key == name {
        Some(t.subrange(key.len() + 1 as int, t.len() as int))
    } else if part.len() < header.len() {
        cookie_in(header.subrange(part.len() + 1 as int, header.len() as int), name)
    } else {
        None
    }
}

pub fn cookie_value(header: &str, name: &str) -> (r: Option<String>)
    ensures
        r is None <==> cookie_in(header@, name@) is None,
        r is Some ==> cookie_in(header@, name@) == Some(r->Some_0@),
{
    let v = chars_of(header);
    let want = chars_of(name);
    let mut rest = sub_chars(&v, 0, v.len());
    assert(rest@ =~= header@);
    loop
        invariant
            cookie_in(header@, name@) == cookie_in(rest@, name@),
            want@ == name@,
        decreases rest@.len(),
    {
        let cut = find_char(&rest, ';');
        let part = match cut {
            Some(k) => sub_chars(&rest, 0, k),
            None => sub_chars(&rest, 0, rest.len()),
        };
        assert(part@ =~= before_char(rest@, ';'));
        let t = trim_chars(&part);
        let key = match find_char(&t, '=') {
            Some(k) => sub_chars(&t, 0, k),
            None => sub_chars(&t, 0, t.len()),
        };
        assert(key@ =~= before_char(t@, '='));
        if key.len() < t.len() && crate::text::chars_equal(&key, &want) {
            return Some(crate::text::string_of(&t, key.len() + 1, t.len()));
        }
        match cut {
            Some(k) => {
                let n = rest.len();
                assert(k < n);
                rest = sub_chars(&rest, k + 1, n);
            },
            None => {
                return None;
            },
        }
    }
}

/// Token of an `Authorization: Bearer <token>` header: what follows the
/// first space, when the word before it is `bearer` in any case.
pub open spec fn bearer_in(header: Seq<char>) -> Option<Seq<char>> {
    let kind = before_char(header, ' ');
    if kind.len() < header.len() && eq_ignore_ascii_case(kind, "bearer"@) {
        Some(header.subrange(kind.len() + 1 as int, header.len() as int))
    } else {
        None
    }
}

pub fn bearer_token(header: &str) -> (r: Option<String>)
    ensures
        r is None <==> bearer_in(header@) is None,
        r is Some ==> bearer_in(header@) == Some(r->Some_0@),
{
    proof {
        reveal_strlit("bearer");
    }
    let v = chars_of(header);
    let k = match find_char(&v, ' ') {
        Some(k) => k,
        None => {
            return None;
        },
    };
    let word = chars_of("bearer");
    if k != 6 || !matches_ignore_case_at(&v, &word, 0) {
        proof {
            if k == 6 {
                assert(v@.subrange(0, 6) =~= v@.take(6));
            }
        }
        return None;
    }
    assert(v@.subrange(0, 6) =~= v@.take(6));
    Some(crate::text::string_of(&v, k + 1, v.len()))
}

} // verus!
