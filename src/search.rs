//! Search over the catalog: the locations whose file name, mime type, date
//! and replica count match a query, ordered by latest sighting and cut into
//! pages.
use vstd::prelude::*;
use vstd::multiset::Multiset;
use vstd::seq_lib::{to_multiset_insert, to_multiset_remove};
use crate::catalog::{Catalog, FileEntry, StoredLocation};
use crate::digest::{bytes_equal, copy_bytes};
use crate::paths::last_slash;
use crate::text::{chars_of, eq_ignore_ascii_case, matches_ignore_case_at};

verus! {

/// What a search asks for; absent or empty parts do not filter.
pub struct SearchQuery {
    /// Part of the file name, compared without regard to ASCII case.
    pub name_query: Option<String>,
    /// Mime types accepted.
    pub mime_types: Vec<String>,
    /// Earliest latest sighting accepted.
    pub date_from: Option<i64>,
    /// Latest latest sighting accepted.
    pub date_to: Option<i64>,
    pub min_replicas: Option<u64>,
    pub max_replicas: Option<u64>,
    /// Newest first when set.
    pub sort_desc: bool,
    pub page: usize,
    pub page_size: usize,
}

/// One search result: a location and what is known of its content.
pub struct SearchRow {
    pub hash: Vec<u8>,
    pub path: String,
    pub node_id: Vec<u8>,
    pub size: u64,
    pub mime_type: Option<String>,
    pub replicas: u64,
    pub first_seen: i64,
    pub latest_seen: i64,
}

/// Mathematical form of a search row.
pub struct RowView {
    pub hash: Seq<u8>,
    pub path: Seq<char>,
    pub node_id: Seq<u8>,
    pub size: u64,
    pub mime_type: Option<Seq<char>>,
    pub replicas: nat,
    pub first_seen: i64,
    pub latest_seen: i64,
}

impl View for SearchRow {
    type V = RowView;

    open spec fn view(&self) -> RowView {
        RowView {
            hash: self.hash@,
            path: self.path@,
            node_id: self.node_id@,
            size: self.size,
            mime_type: match self.mime_type {
                Some(m) => Some(m@),
                None => None,
            },
            replicas: self.replicas as nat,
            first_seen: self.first_seen,
            latest_seen: self.latest_seen,
        }
    }
}

pub open spec fn string_views(s: Seq<String>) -> Seq<Seq<char>> {
    s.map_values(|m: String| m@)
}

pub open spec fn row_views(s: Seq<SearchRow>) -> Seq<RowView> {
    s.map_values(|r: SearchRow| r@)
}

/// The last component of a path.
pub open spec fn file_name_of(path: Seq<char>) -> Seq<char> {
    path.skip(last_slash(path) + 1)
}

/// `needle` occurs in `hay`, ASCII case aside.
pub open spec fn contains_ignore_case(hay: Seq<char>, needle: Seq<char>) -> bool {
    exists|i: int|
        0 <= i && i + needle.len() <= hay.len() && eq_ignore_ascii_case(
            #[trigger] hay.subrange(i, i + needle.len()),
            needle,
        )
}

/// Number of locations holding content `h`.
pub open spec fn replicas_of(locs: Seq<StoredLocation>, h: Seq<u8>) -> nat
    decreases locs.len(),
{
    if locs.len() == 0 {
        0
    } else {
        replicas_of(locs.drop_last(), h) + if locs.last().hash@ == h {
            1nat
        } else {
            0nat
        }
    }
}

/// The entry of content `h` (the first with that hash).
pub open spec fn entry_of(entries: Seq<FileEntry>, h: Seq<u8>) -> Option<FileEntry>
    decreases entries.len(),
{
    if entries.len() == 0 {
        None
    } else if entries[0].hash@ == h {
        Some(entries[0])
    } else {
        entry_of(entries.drop_first(), h)
    }
}

pub open spec fn mime_view(m: Option<String>) -> Option<Seq<char>> {
    match m {
        Some(s) => Some(s@),
        None => None,
    }
}

/// The row a location stands for.
pub open spec fn row_of(entries: Seq<FileEntry>, locs: Seq<StoredLocation>, l: StoredLocation) -> RowView {
    let e = entry_of(entries, l.hash@)->Some_0;
    RowView {
        hash: l.hash@,
        path: l.path@,
        node_id: l.node_id@,
        size: l.size,
        mime_type: mime_view(e.mime_type),
        replicas: replicas_of(locs, l.hash@),
        first_seen: e.first_seen,
        latest_seen: e.latest_seen,
    }
}

/// The row matches every part of the query.
pub open spec fn row_matches(q: SearchQuery, r: RowView) -> bool {
    &&& match q.name_query {
        Some(n) => contains_ignore_case(file_name_of(r.path), n@),
        None => true,
    }
    &&& (q.mime_types@.len() == 0 || (r.mime_type is Some && exists|i: int|
        0 <= i < q.mime_types@.len() && (#[trigger] q.mime_types@[i])@ == r.mime_type->Some_0))
    &&& match q.date_from {
        Some(d) => r.latest_seen >= d,
        None => true,
    }
    &&& match q.date_to {
        Some(d) => r.latest_seen <= d,
        None => true,
    }
    &&& match q.min_replicas {
        Some(m) => r.replicas >= m,
        None => true,
    }
    &&& match q.max_replicas {
        Some(m) => r.replicas <= m,
        None => true,
    }
}

/// Rows of the locations `part` that match, in catalog order.
pub open spec fn matching_rows(
    entries: Seq<FileEntry>,
    locs: Seq<StoredLocation>,
    part: Seq<StoredLocation>,
    q: SearchQuery,
) -> Seq<RowView>
    decreases part.len(),
{
    if part.len() == 0 {
        Seq::empty()
    } else {
        let r = row_of(entries, locs, part.last());
        if entry_of(entries, part.last().hash@) is Some && row_matches(q, r) {
            matching_rows(entries, locs, part.drop_last(), q).push(r)
        } else {
            matching_rows(entries, locs, part.drop_last(), q)
        }
    }
}

/// `a` comes before `b` in the chosen order of latest sighting.
pub open spec fn row_before(a: RowView, b: RowView, desc: bool) -> bool {
    if desc {
        a.latest_seen > b.latest_seen
    } else {
        a.latest_seen < b.latest_seen
    }
}

/// No row comes before the one it follows.
pub open spec fn rows_ordered(s: Seq<RowView>, desc: bool) -> bool {
    forall|i: int| 0 <= i < s.len() - 1 ==> !row_before(#[trigger] s[i + 1], s[i], desc)
}

fn find_entry(entries: &Vec<FileEntry>, h: &[u8]) -> (r: Option<usize>)
    ensures
        r is None ==> entry_of(entries@, h@) is None,
        r is Some ==> r->Some_0 < entries@.len() && entry_of(entries@, h@) == Some(
            entries@[r->Some_0 as int],
        ),
{
    let n = entries.len();
    let mut i: usize = 0;
    assert(entries@.subrange(0, n as int) =~= entries@);
    while i < n
        invariant
            i <= n == entries@.len(),
            entry_of(entries@, h@) == entry_of(entries@.subrange(i as int, n as int), h@),
        decreases n - i,
    {
        let ghost rest = entries@.subrange(i as int, n as int);
        assert(rest[0] == entries@[i as int]);
        if bytes_equal(entries[i].hash.as_slice(), h) {
            return Some(i);
        }
        assert(rest.drop_first() =~= entries@.subrange(i + 1, n as int));
        i = i + 1;
    }
    None
}

fn count_replicas(locs: &Vec<StoredLocation>, h: &[u8]) -> (r: u64)
    ensures
        r == replicas_of(locs@, h@),
{
    let mut c: u64 = 0;
    let mut i: usize = 0;
    while i < locs.len()
        invariant
            i <= locs@.len(),
            c == replicas_of(locs@.subrange(0, i as int), h@),
            c <= i,
        decreases locs.len() - i,
    {
        let ghost p = locs@.subrange(0, i + 1);
        assert(p.drop_last() =~= locs@.subrange(0, i as int));
        assert(p.last() == locs@[i as int]);
        if bytes_equal(locs[i].hash.as_slice(), h) {
            c = c + 1;
        }
        i = i + 1;
    }
    assert(locs@.subrange(0, locs@.len() as int) =~= locs@);
    c
}

fn name_matches(path: &String, needle: &String) -> (r: bool)
    ensures
        r == contains_ignore_case(file_name_of(path@), needle@),
{
    let v = chars_of(path.as_str());
    let w = chars_of(needle.as_str());
    let mut k = v.len();
    assert(v@.take(v@.len() as int) =~= v@);
    while k > 0 && v[k - 1] != '/'
        invariant
            k <= v@.len(),
            last_slash(v@) == last_slash(v@.take(k as int)),
        decreases k,
    {
        let ghost cur = v@.take(k as int);
        assert(cur.drop_last() =~= v@.take(k - 1));
        assert(cur.last() == v@[k - 1]);
        k = k - 1;
    }
    proof {
        if k > 0 {
            assert(v@.take(k as int).last() == v@[k - 1]);
        } else {
            assert(v@.take(0) =~= Seq::<char>::empty());
        }
        assert(v@.take(v@.len() as int) =~= v@);
    }
    let ghost name = file_name_of(path@);
    assert(name =~= v@.subrange(k as int, v@.len() as int));
    if w.len() > v.len() - k {
        return false;
    }
    let last = v.len() - w.len();
    let mut i = k;
    while i <= last
        invariant
            k <= i,
            last + w@.len() == v@.len(),
            v@ == path@,
            name == file_name_of(path@),
            name == v@.subrange(k as int, v@.len() as int),
            w@ == needle@,
            forall|j: int|
                0 <= j < i - k ==> !eq_ignore_ascii_case(#[trigger] name.subrange(j, j + w@.len()), w@),
        decreases last + 1 - i,
    {
        if matches_ignore_case_at(&v, &w, i) {
            assert(name.subrange(i - k, i - k + w@.len()) =~= v@.subrange(i as int, i + w@.len()));
            return true;
        }
        assert(name.subrange(i - k, i - k + w@.len()) =~= v@.subrange(i as int, i + w@.len()));
        if i == last {
            assert forall|j: int| 0 <= j && j + w@.len() <= name.len() implies !eq_ignore_ascii_case(
                #[trigger] name.subrange(j, j + w@.len()),
                w@,
            ) by {
                assert(j <= i - k);
            }
            return false;
        }
        i = i + 1;
    }
    false
}

fn mime_listed(types: &Vec<String>, m: &String) -> (r: bool)
    ensures
        r == exists|i: int| 0 <= i < types@.len() && (#[trigger] types@[i])@ == m@,
{
    let mut i: usize = 0;
    while i < types.len()
        invariant
            i <= types@.len(),
            forall|j: int| 0 <= j < i ==> (#[trigger] types@[j])@ != m@,
        decreases types.len() - i,
    {
        if types[i] == *m {
            return true;
        }
        i = i + 1;
    }
    false
}

fn copy_mime(m: &Option<String>) -> (r: Option<String>)
    ensures
        mime_view(r) == mime_view(*m),
{
    match m {
        Some(s) => Some(s.clone()),
        None => None,
    }
}

fn matches_query(q: &SearchQuery, row: &SearchRow) -> (r: bool)
    ensures
        r == row_matches(*q, row@),
{
    let name_ok = match &q.name_query {
        Some(n) => name_matches(&row.path, n),
        None => true,
    };
    let mime_ok = q.mime_types.len() == 0 || match &row.mime_type {
        Some(m) => mime_listed(&q.mime_types, m),
        None => false,
    };
    let from_ok = match q.date_from {
        Some(d) => row.latest_seen >= d,
        None => true,
    };
    let to_ok = match q.date_to {
        Some(d) => row.latest_seen <= d,
        None => true,
    };
    let min_ok = match q.min_replicas {
        Some(m) => row.replicas >= m,
        None => true,
    };
    let max_ok = match q.max_replicas {
        Some(m) => row.replicas <= m,
        None => true,
    };
    name_ok && mime_ok && from_ok && to_ok && min_ok && max_ok
}

/// The matching rows of the catalog, in catalog order.
fn collect_rows(catalog: &Catalog, q: &SearchQuery) -> (r: Vec<SearchRow>)
    ensures
        row_views(r@) == matching_rows(
            catalog.spec_entries(),
            catalog.spec_locations(),
            catalog.spec_locations(),
            *q,
        ),
{
    let entries = catalog.entries();
    let locs = catalog.locations();
    let mut out: Vec<SearchRow> = Vec::new();
    let mut i: usize = 0;
    while i < locs.len()
        invariant
            i <= locs@.len(),
            entries@ == catalog.spec_entries(),
            locs@ == catalog.spec_locations(),
            row_views(out@) == matching_rows(entries@, locs@, locs@.subrange(0, i as int), *q),
        decreases locs.len() - i,
    {
        let ghost p = locs@.subrange(0, i + 1);
        assert(p.drop_last() =~= locs@.subrange(0, i as int));
        assert(p.last() == locs@[i as int]);
        let l = &locs[i];
        if let Some(k) = find_entry(entries, l.hash.as_slice()) {
            let e = &entries[k];
            let row = SearchRow {
                hash: copy_bytes(l.hash.as_slice()),
                path: l.path.clone(),
                node_id: copy_bytes(l.node_id.as_slice()),
                size: l.size,
                mime_type: copy_mime(&e.mime_type),
                replicas: count_replicas(locs, l.hash.as_slice()),
                first_seen: e.first_seen,
                latest_seen: e.latest_seen,
            };
            assert(row@ == row_of(entries@, locs@, locs@[i as int]));
            if matches_query(q, &row) {
                let ghost before = out@;
                out.push(row);
                assert(row_views(out@) =~= row_views(before).push(row@));
            }
        }
        i = i + 1;
    }
    assert(locs@.subrange(0, locs@.len() as int) =~= locs@);
    out
}

fn row_precedes(a: &SearchRow, b: &SearchRow, desc: bool) -> (r: bool)
    ensures
        r == row_before(a@, b@, desc),
{
    if desc {
        a.latest_seen > b.latest_seen
    } else {
        a.latest_seen < b.latest_seen
    }
}

/// Orders rows by latest sighting; rows that tie keep their order.
fn sort_rows(rows: Vec<SearchRow>, desc: bool) -> (r: Vec<SearchRow>)
    ensures
        rows_ordered(row_views(r@), desc),
        row_views(r@).to_multiset() == row_views(rows@).to_multiset(),
{
    let mut rest = rows;
    let mut out: Vec<SearchRow> = Vec::new();
    let ghost orig = row_views(rest@);
    proof {
        broadcast use vstd::seq_lib::to_multiset_len;
        broadcast use vstd::multiset::group_multiset_axioms;
        assert(row_views(out@).to_multiset().len() == 0);
        assert(row_views(out@).to_multiset() =~= Multiset::<RowView>::empty());
        assert(row_views(out@).to_multiset().add(row_views(rest@).to_multiset()) =~= orig.to_multiset());
    }
    while rest.len() > 0
        invariant
            rows_ordered(row_views(out@), desc),
            row_views(out@).to_multiset().add(row_views(rest@).to_multiset()) == orig.to_multiset(),
        decreases rest@.len(),
    {
        let ghost before_rest = rest@;
        let x = rest.remove(0);
        let mut p: usize = 0;
        while p < out.len() && !row_precedes(&x, &out[p], desc)
            invariant
                p <= out@.len(),
                forall|q: int| 0 <= q < p ==> !row_before(x@, #[trigger] out@[q]@, desc),
            decreases out.len() - p,
        {
            p = p + 1;
        }
        let ghost before_out = out@;
        out.insert(p, x);
        proof {
            let bv = row_views(before_rest);
            let ov = row_views(before_out);
            assert(row_views(rest@) =~= bv.remove(0));
            assert(row_views(out@) =~= ov.insert(p as int, x@));
            to_multiset_remove(bv, 0);
            to_multiset_insert(ov, p as int, x@);
            broadcast use vstd::multiset::group_multiset_axioms;
            assert(bv[0] == x@);
            vstd::seq_lib::to_multiset_contains(bv, x@);
            assert(bv.to_multiset().remove(x@).insert(x@) =~= bv.to_multiset());
            assert(row_views(out@).to_multiset().add(row_views(rest@).to_multiset()) =~= ov.to_multiset().add(
                bv.to_multiset(),
            ));
            let nv = row_views(out@);
            assert forall|i: int| 0 <= i < nv.len() - 1 implies !row_before(#[trigger] nv[i + 1], nv[i], desc) by {
                if i + 1 < p {
                    assert(nv[i] == ov[i] && nv[i + 1] == ov[i + 1]);
                    assert(!row_before(ov[i + 1], ov[i], desc));
                } else if i + 1 == p {
                    assert(nv[i] == ov[i] && nv[i + 1] == x@);
                    assert(before_out[i]@ == ov[i]);
                } else if i == p {
                    assert(nv[i] == x@ && nv[i + 1] == ov[i]);
                } else {
                    assert(nv[i] == ov[i - 1] && nv[i + 1] == ov[i]);
                    assert(!row_before(ov[(i - 1) + 1], ov[i - 1], desc));
                }
            }
        }
    }
    proof {
        broadcast use vstd::multiset::group_multiset_axioms;
        broadcast use vstd::seq_lib::to_multiset_len;
        assert(row_views(rest@).to_multiset().len() == 0);
        assert(row_views(rest@).to_multiset() =~= Multiset::<RowView>::empty());
        assert(row_views(out@).to_multiset().add(row_views(rest@).to_multiset()) =~= row_views(out@).to_multiset());
    }
    out
}


/// The mime types of `rows`, each once, in order of first appearance.
fn distinct_mimes(rows: &Vec<SearchRow>) -> (r: Vec<String>)
    ensures
        mimes_listed(row_views(rows@), string_views(r@)),
{
    let ghost rv = row_views(rows@);
    let mut out: Vec<String> = Vec::new();
    let mut i: usize = 0;
    while i < rows.len()
        invariant
            i <= rows@.len(),
            rv == row_views(rows@),
            forall|a: int, b: int| 0 <= a < b < out@.len() ==> out@[a]@ != out@[b]@,
            forall|a: int| 0 <= a < out@.len() ==> has_mime(rv, #[trigger] out@[a]@),
            forall|k: int| 0 <= k < i && (#[trigger] rv[k]).mime_type is Some ==> exists|a: int|
                0 <= a < out@.len() && #[trigger] out@[a]@ == rv[k].mime_type->Some_0,
        decreases rows.len() - i,
    {
        assert(rv[i as int] == rows@[i as int]@);
        match &rows[i].mime_type {
            Some(m) => {
                if !mime_listed(&out, m) {
                    let ghost before = out@;
                    out.push(m.clone());
                    assert forall|a: int| 0 <= a < out@.len() implies has_mime(rv, #[trigger] out@[a]@) by {
                        if a < before.len() {
                            assert(out@[a] == before[a]);
                            assert(has_mime(rv, before[a]@));
                        } else {
                            assert(rv[i as int].mime_type == Some(out@[a]@));
                        }
                    }
                    assert forall|k: int| 0 <= k < i + 1 && (#[trigger] rv[k]).mime_type is Some implies exists|a: int|
                        0 <= a < out@.len() && #[trigger] out@[a]@ == rv[k].mime_type->Some_0 by {
                        if k < i {
                            let a = choose|a: int| 0 <= a < before.len() && #[trigger] before[a]@ == rv[k].mime_type->Some_0;
                            assert(out@[a] == before[a]);
                        } else {
                            assert(out@[before.len() as int]@ == rv[k].mime_type->Some_0);
                        }
                    }
                }
            },
            None => {},
        }
        i = i + 1;
    }
    let ghost mv = string_views(out@);
    assert forall|a: int, b: int| 0 <= a < b < mv.len() implies mv[a] != mv[b] by {
        assert(mv[a] == out@[a]@ && mv[b] == out@[b]@);
    }
    assert forall|a: int| 0 <= a < mv.len() implies has_mime(rv, #[trigger] mv[a]) by {
        assert(mv[a] == out@[a]@);
    }
    assert forall|k: int| 0 <= k < rv.len() && (#[trigger] rv[k]).mime_type is Some implies exists|a: int|
        0 <= a < mv.len() && #[trigger] mv[a] == rv[k].mime_type->Some_0 by {
        let a = choose|a: int| 0 <= a < out@.len() && #[trigger] out@[a]@ == rv[k].mime_type->Some_0;
        assert(mv[a] == out@[a]@);
    }
    assert(mimes_listed(rv, mv));
    out
}

/// First index of page `page` of `page_size` rows among `total`.
pub open spec fn page_start(total: nat, page: nat, page_size: nat) -> nat {
    if page * page_size < total {
        page * page_size
    } else {
        total
    }
}

/// One past the last index of that page.
pub open spec fn page_end(total: nat, page: nat, page_size: nat) -> nat {
    if page_start(total, page, page_size) + page_size < total {
        page_start(total, page, page_size) + page_size
    } else {
        total
    }
}

/// Some row has mime type `m`.
pub open spec fn has_mime(rows: Seq<RowView>, m: Seq<char>) -> bool {
    exists|k: int| 0 <= k < rows.len() && (#[trigger] rows[k]).mime_type == Some(m)
}

/// Mime types of `rows`, each once.
pub open spec fn mimes_listed(rows: Seq<RowView>, mimes: Seq<Seq<char>>) -> bool {
    &&& forall|i: int, j: int| 0 <= i < j < mimes.len() ==> mimes[i] != mimes[j]
    &&& forall|i: int| 0 <= i < mimes.len() ==> has_mime(rows, #[trigger] mimes[i])
    &&& forall|k: int|
        0 <= k < rows.len() && (#[trigger] rows[k]).mime_type is Some ==> exists|i: int|
            0 <= i < mimes.len() && #[trigger] mimes[i] == rows[k].mime_type->Some_0
}

/// Searches the catalog: the page `q.page` (of `q.page_size` rows) of the
/// matching locations ordered by latest sighting, the mime types found
/// among all matches, and the number of matches.
pub fn search_files(catalog: &Catalog, q: &SearchQuery) -> (r: (Vec<SearchRow>, Vec<String>, usize))
    ensures
        ({
            let all = matching_rows(
                catalog.spec_entries(),
                catalog.spec_locations(),
                catalog.spec_locations(),
                *q,
            );
            &&& r.2 == all.len()
            &&& exists|ordered: Seq<RowView>|
                ordered.to_multiset() == all.to_multiset() && rows_ordered(ordered, q.sort_desc)
                    && row_views(r.0@) == ordered.subrange(
                    page_start(all.len(), q.page as nat, q.page_size as nat) as int,
                    page_end(all.len(), q.page as nat, q.page_size as nat) as int,
                ) && mimes_listed(ordered, string_views(r.1@))
        }),
{
    let rows = collect_rows(catalog, q);
    let ghost all = row_views(rows@);
    let sorted = sort_rows(rows, q.sort_desc);
    proof {
        broadcast use vstd::seq_lib::to_multiset_len;
        assert(row_views(sorted@).len() == row_views(sorted@).to_multiset().len());
        assert(all.len() == all.to_multiset().len());
    }
    let mimes = distinct_mimes(&sorted);
    let total = sorted.len();
    let ps = q.page_size;
    let start: usize = if ps == 0 {
        assert(q.page as nat * ps as nat == 0) by (nonlinear_arith)
            requires
                ps == 0,
        ;
        0
    } else if total > 0 && q.page <= (total - 1) / ps {
        let quot = (total - 1) / ps;
        assert(q.page * ps <= total - 1) by (nonlinear_arith)
            requires
                ps > 0,
                q.page <= quot,
                quot == (total - 1) as int / ps as int,
                total > 0,
        ;
        q.page * ps
    } else {
        proof {
            if total > 0 {
                let quot = (total - 1) as int / ps as int;
                assert(q.page * ps >= total) by (nonlinear_arith)
                    requires
                        ps > 0,
                        q.page > quot,
                        quot == (total - 1) as int / ps as int,
                        total > 0,
                ;
            }
        }
        total
    };
    assert(start == page_start(total as nat, q.page as nat, ps as nat));
    let end: usize = if total - start > ps { start + ps } else { total };
    let mut page = sorted;
    let ghost full = row_views(page@);
    let mut tail = page.split_off(start);
    tail.truncate(end - start);
    proof {
        assert(row_views(tail@) =~= full.subrange(start as int, end as int));
    }
    (tail, mimes, total)
}


} // verus!
