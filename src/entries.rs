//! Directory listings: entries come directories first, then by name without
//! regard to case.
use vstd::prelude::*;
use vstd::multiset::Multiset;
use vstd::seq_lib::{to_multiset_insert, to_multiset_remove};

verus! {

/// Lower-case form of a string (full Unicode mapping).
pub uninterp spec fn lowercase_of(s: Seq<char>) -> Seq<char>;

/// Relies on `str::to_lowercase`: the lower-case mapping of each character,
/// which depends on the string alone.
#[verifier::external_body]
fn to_lowercase(s: &str) -> (r: String)
    ensures
        r@ == lowercase_of(s@),
{
    s.to_lowercase()
}

/// The mime type that a file name's extension suggests.
pub uninterp spec fn mime_guess_of(path: Seq<char>) -> Option<Seq<char>>;

/// Relies on `mime_guess::from_path(..).first_raw()`: the first mime type
/// registered for the path's extension, which depends on the path alone.
#[verifier::external_body]
fn mime_for_path(path: &str) -> (r: Option<String>)
    ensures
        match r {
            Some(m) => mime_guess_of(path@) == Some(m@),
            None => mime_guess_of(path@) is None,
        },
{
    mime_guess::from_path(path).first_raw().map(String::from)
}

/// Guesses a file's mime type from its name.
pub fn guess_mime(path: &str) -> (r: Option<String>)
    ensures
        match r {
            Some(m) => mime_guess_of(path@) == Some(m@),
            None => mime_guess_of(path@) is None,
        },
{
    mime_for_path(path)
}

/// One entry of a directory listing; times are seconds since the epoch.
#[derive(Debug)]
pub struct DirEntry {
    pub name: String,
    pub is_dir: bool,
    pub extension: Option<String>,
    pub mime: Option<String>,
    pub size: u64,
    pub created_at: Option<i64>,
    pub modified_at: Option<i64>,
    pub accessed_at: Option<i64>,
}

/// `a` comes strictly before `b` in character order.
pub open spec fn lex_lt(a: Seq<char>, b: Seq<char>) -> bool
    decreases a.len(),
{
    if a.len() == 0 {
        b.len() > 0
    } else if b.len() == 0 {
        false
    } else if a[0] != b[0] {
        a[0] < b[0]
    } else {
        lex_lt(a.drop_first(), b.drop_first())
    }
}

proof fn lemma_lex_asymmetric(a: Seq<char>, b: Seq<char>)
    ensures
        lex_lt(a, b) ==> !lex_lt(b, a),
    decreases a.len(),
{
    if a.len() > 0 && b.len() > 0 && a[0] == b[0] {
        lemma_lex_asymmetric(a.drop_first(), b.drop_first());
    }
}

/// `a` is listed before `b`: a directory before a file, else the name
/// without case first.
pub open spec fn entry_lt(a: DirEntry, b: DirEntry) -> bool {
    (a.is_dir && !b.is_dir) || (a.is_dir == b.is_dir && lex_lt(
        lowercase_of(a.name@),
        lowercase_of(b.name@),
    ))
}

/// No entry is listed before the one it follows.
pub open spec fn listing_ordered(s: Seq<DirEntry>) -> bool {
    forall|i: int| 0 <= i < s.len() - 1 ==> !entry_lt(#[trigger] s[i + 1], s[i])
}

fn lex_less(a: &Vec<char>, b: &Vec<char>) -> (r: bool)
    ensures
        r == lex_lt(a@, b@),
{
    let mut i: usize = 0;
    assert(a@.subrange(0, a@.len() as int) =~= a@);
    assert(b@.subrange(0, b@.len() as int) =~= b@);
    while i < a.len() && i < b.len() && a[i] == b[i]
        invariant
            i <= a@.len(),
            i <= b@.len(),
            lex_lt(a@, b@) == lex_lt(a@.subrange(i as int, a@.len() as int), b@.subrange(i as int, b@.len() as int)),
        decreases a.len() - i,
    {
        let ghost ra = a@.subrange(i as int, a@.len() as int);
        let ghost rb = b@.subrange(i as int, b@.len() as int);
        assert(ra[0] == a@[i as int] && rb[0] == b@[i as int]);
        assert(ra.drop_first() =~= a@.subrange(i + 1, a@.len() as int));
        assert(rb.drop_first() =~= b@.subrange(i + 1, b@.len() as int));
        i = i + 1;
    }
    let ghost ra = a@.subrange(i as int, a@.len() as int);
    let ghost rb = b@.subrange(i as int, b@.len() as int);
    if i == a.len() {
        i < b.len()
    } else if i == b.len() {
        false
    } else {
        assert(ra[0] == a@[i as int] && rb[0] == b@[i as int]);
        a[i] < b[i]
    }
}

fn entry_less(a: &DirEntry, b: &DirEntry) -> (r: bool)
    ensures
        r == entry_lt(*a, *b),
{
    if a.is_dir != b.is_dir {
        return a.is_dir;
    }
    let la = crate::text::chars_of(to_lowercase(a.name.as_str()).as_str());
    let lb = crate::text::chars_of(to_lowercase(b.name.as_str()).as_str());
    lex_less(&la, &lb)
}

/// Orders a listing: directories first, then by name without regard to
/// case.
pub fn sort_entries(entries: Vec<DirEntry>) -> (r: Vec<DirEntry>)
    ensures
        listing_ordered(r@),
        r@.to_multiset() == entries@.to_multiset(),
{
    let mut rest = entries;
    let mut out: Vec<DirEntry> = Vec::new();
    let ghost orig = rest@;
    proof {
        assert(out@.to_multiset() =~= Multiset::<DirEntry>::empty()) by {
            broadcast use vstd::seq_lib::to_multiset_len;
            broadcast use vstd::multiset::group_multiset_axioms;
            assert(out@.to_multiset().len() == 0);
        }
    }
    while rest.len() > 0
        invariant
            listing_ordered(out@),
            out@.to_multiset().add(rest@.to_multiset()) == orig.to_multiset(),
        decreases rest@.len(),
    {
        let ghost before_rest = rest@;
        let x = rest.remove(0);
        let mut p: usize = 0;
        while p < out.len() && !entry_less(&x, &out[p])
            invariant
                p <= out@.len(),
                forall|q: int| 0 <= q < p ==> !entry_lt(x, #[trigger] out@[q]),
            decreases out.len() - p,
        {
            p = p + 1;
        }
        let ghost before_out = out@;
        out.insert(p, x);
        proof {
            to_multiset_remove(before_rest, 0);
            to_multiset_insert(before_out, p as int, x);
            broadcast use vstd::multiset::group_multiset_axioms;
            assert(before_rest[0] == x);
            vstd::seq_lib::to_multiset_contains(before_rest, x);
            assert(before_rest.to_multiset().remove(x).insert(x) =~= before_rest.to_multiset());
            assert(out@.to_multiset().add(rest@.to_multiset()) =~= before_out.to_multiset().add(
                before_rest.to_multiset(),
            ));
            if p < before_out.len() {
                lemma_lex_asymmetric(lowercase_of(x.name@), lowercase_of(before_out[p as int].name@));
            }
            assert forall|i: int| 0 <= i < out@.len() - 1 implies !entry_lt(#[trigger] out@[i + 1], out@[i]) by {
                if i + 1 < p {
                    assert(out@[i] == before_out[i] && out@[i + 1] == before_out[i + 1]);
                    assert(!entry_lt(before_out[i + 1], before_out[i]));
                } else if i + 1 == p {
                    assert(out@[i] == before_out[i] && out@[i + 1] == x);
                    assert(!entry_lt(x, before_out[i]));
                } else if i == p {
                    assert(out@[i] == x && out@[i + 1] == before_out[i]);
                } else {
                    assert(out@[i] == before_out[i - 1] && out@[i + 1] == before_out[i]);
                    assert(!entry_lt(before_out[(i - 1) + 1], before_out[i - 1]));
                }
            }
        }
    }
    proof {
        broadcast use vstd::multiset::group_multiset_axioms;
        broadcast use vstd::seq_lib::to_multiset_len;
        assert(rest@.to_multiset().len() == 0);
        assert(rest@.to_multiset() =~= Multiset::<DirEntry>::empty());
        assert(out@.to_multiset().add(rest@.to_multiset()) =~= out@.to_multiset());
    }
    out
}

} // verus!
