//! Pages of the content catalog, newest sighting first.
use vstd::prelude::*;
use vstd::multiset::Multiset;
use vstd::seq_lib::{to_multiset_insert, to_multiset_remove};
use crate::catalog::{Catalog, FileEntry};
use crate::digest::copy_bytes;
use crate::search::{mime_view, page_end, page_start};

verus! {

/// One content entry as listed to users; times are seconds since the epoch.
pub struct ScanResultRow {
    pub hash: Vec<u8>,
    pub size: u64,
    pub mime_type: Option<String>,
    pub first_datetime: i64,
    pub latest_datetime: i64,
}

/// Mathematical form of a result row.
pub struct ResultView {
    pub hash: Seq<u8>,
    pub size: u64,
    pub mime_type: Option<Seq<char>>,
    pub first_datetime: i64,
    pub latest_datetime: i64,
}

impl View for ScanResultRow {
    type V = ResultView;

    open spec fn view(&self) -> ResultView {
        ResultView {
            hash: self.hash@,
            size: self.size,
            mime_type: mime_view(self.mime_type),
            first_datetime: self.first_datetime,
            latest_datetime: self.latest_datetime,
        }
    }
}

pub open spec fn result_views(s: Seq<ScanResultRow>) -> Seq<ResultView> {
    s.map_values(|r: ScanResultRow| r@)
}

/// The row an entry is listed as.
pub open spec fn result_of(e: FileEntry) -> ResultView {
    ResultView {
        hash: e.hash@,
        size: e.size,
        mime_type: mime_view(e.mime_type),
        first_datetime: e.first_seen,
        latest_datetime: e.latest_seen,
    }
}

pub open spec fn entry_views(s: Seq<FileEntry>) -> Seq<ResultView> {
    s.map_values(|e: FileEntry| result_of(e))
}

/// No row was seen later than the one before it.
pub open spec fn newest_first(s: Seq<ResultView>) -> bool {
    forall|i: int| 0 <= i < s.len() - 1 ==> (#[trigger] s[i + 1]).latest_datetime <= s[i].latest_datetime
}

fn result_row(e: &FileEntry) -> (r: ScanResultRow)
    ensures
        r@ == result_of(*e),
{
    ScanResultRow {
        hash: copy_bytes(e.hash.as_slice()),
        size: e.size,
        mime_type: match &e.mime_type {
            Some(m) => Some(m.clone()),
            None => None,
        },
        first_datetime: e.first_seen,
        latest_datetime: e.latest_seen,
    }
}

fn sort_newest_first(rows: Vec<ScanResultRow>) -> (r: Vec<ScanResultRow>)
    ensures
        newest_first(result_views(r@)),
        result_views(r@).to_multiset() == result_views(rows@).to_multiset(),
{
    let mut rest = rows;
    let mut out: Vec<ScanResultRow> = Vec::new();
    let ghost orig = result_views(rest@);
    proof {
        broadcast use vstd::seq_lib::to_multiset_len;
        broadcast use vstd::multiset::group_multiset_axioms;
        assert(result_views(out@).to_multiset().len() == 0);
        assert(result_views(out@).to_multiset() =~= Multiset::<ResultView>::empty());
        assert(result_views(out@).to_multiset().add(result_views(rest@).to_multiset()) =~= orig.to_multiset());
    }
    while rest.len() > 0
        invariant
            newest_first(result_views(out@)),
            result_views(out@).to_multiset().add(result_views(rest@).to_multiset()) == orig.to_multiset(),
        decreases rest@.len(),
    {
        let ghost before_rest = rest@;
        let x = rest.remove(0);
        let mut p: usize = 0;
        while p < out.len() && x.latest_datetime <= out[p].latest_datetime
            invariant
                p <= out@.len(),
                forall|q: int| 0 <= q < p ==> x.latest_datetime <= #[trigger] out@[q].latest_datetime,
            decreases out.len() - p,
        {
            p = p + 1;
        }
        let ghost before_out = out@;
        out.insert(p, x);
        proof {
            let bv = result_views(before_rest);
            let ov = result_views(before_out);
            assert(result_views(rest@) =~= bv.remove(0));
            assert(result_views(out@) =~= ov.insert(p as int, x@));
            to_multiset_remove(bv, 0);
            to_multiset_insert(ov, p as int, x@);
            broadcast use vstd::multiset::group_multiset_axioms;
            assert(bv[0] == x@);
            vstd::seq_lib::to_multiset_contains(bv, x@);
            assert(bv.to_multiset().remove(x@).insert(x@) =~= bv.to_multiset());
            assert(result_views(out@).to_multiset().add(result_views(rest@).to_multiset()) =~= ov.to_multiset().add(
                bv.to_multiset(),
            ));
            let nv = result_views(out@);
            assert forall|i: int| 0 <= i < nv.len() - 1 implies (#[trigger] nv[i + 1]).latest_datetime
                <= nv[i].latest_datetime by {
                if i + 1 < p {
                    assert(nv[i] == ov[i] && nv[i + 1] == ov[i + 1]);
                } else if i + 1 == p {
                    assert(nv[i] == ov[i] && nv[i + 1] == x@);
                    assert(before_out[i]@ == ov[i]);
                } else if i == p {
                    assert(nv[i] == x@ && nv[i + 1] == ov[i]);
                    assert(before_out[i]@ == ov[i]);
                } else {
                    assert(nv[i] == ov[i - 1] && nv[i + 1] == ov[i]);
                    assert(ov[(i - 1) + 1].latest_datetime <= ov[i - 1].latest_datetime);
                }
            }
        }
    }
    proof {
        broadcast use vstd::multiset::group_multiset_axioms;
        broadcast use vstd::seq_lib::to_multiset_len;
        assert(result_views(rest@).to_multiset().len() == 0);
        assert(result_views(rest@).to_multiset() =~= Multiset::<ResultView>::empty());
        assert(result_views(out@).to_multiset().add(result_views(rest@).to_multiset()) =~= result_views(out@).to_multiset());
    }
    out
}

/// Page `page` (of `page_size` rows) of the catalog's entries, newest
/// sighting first, and the number of entries.
pub fn fetch_scan_results_page(catalog: &Catalog, page: usize, page_size: usize) -> (r: (
    Vec<ScanResultRow>,
    usize,
))
    ensures
        r.1 == catalog.spec_entries().len(),
        exists|ordered: Seq<ResultView>|
            ordered.to_multiset() == entry_views(catalog.spec_entries()).to_multiset() && newest_first(
                ordered,
            ) && result_views(r.0@) == ordered.subrange(
                page_start(r.1 as nat, page as nat, page_size as nat) as int,
                page_end(r.1 as nat, page as nat, page_size as nat) as int,
            ),
{
    let entries = catalog.entries();
    let mut rows: Vec<ScanResultRow> = Vec::new();
    let mut i: usize = 0;
    while i < entries.len()
        invariant
            i <= entries@.len(),
            entries@ == catalog.spec_entries(),
            rows@.len() == i,
            result_views(rows@) == entry_views(entries@.subrange(0, i as int)),
        decreases entries.len() - i,
    {
        let ghost before = rows@;
        rows.push(result_row(&entries[i]));
        proof {
            let lhs = result_views(rows@);
            let rhs = entry_views(entries@.subrange(0, i + 1));
            assert forall|j: int| 0 <= j < lhs.len() implies lhs[j] == rhs[j] by {
                if j < i {
                    assert(rows@[j] == before[j]);
                    assert(result_views(before)[j] == entry_views(entries@.subrange(0, i as int))[j]);
                }
            }
            assert(lhs =~= rhs);
        }
        i = i + 1;
    }
    assert(entries@.subrange(0, entries@.len() as int) =~= entries@);
    let sorted = sort_newest_first(rows);
    proof {
        broadcast use vstd::seq_lib::to_multiset_len;
        assert(result_views(sorted@).len() == result_views(sorted@).to_multiset().len());
        assert(entry_views(entries@).len() == entry_views(entries@).to_multiset().len());
    }
    let total = sorted.len();
    let start: usize = if page_size == 0 {
        assert(page as nat * page_size as nat == 0) by (nonlinear_arith)
            requires
                page_size == 0,
        ;
        0
    } else if total > 0 && page <= (total - 1) / page_size {
        let quot = (total - 1) / page_size;
        assert(page * page_size <= total - 1) by (nonlinear_arith)
            requires
                page_size > 0,
                page <= quot,
                quot == (total - 1) as int / page_size as int,
                total > 0,
        ;
        page * page_size
    } else {
        proof {
            if total > 0 {
                let quot = (total - 1) as int / page_size as int;
                assert(page * page_size >= total) by (nonlinear_arith)
                    requires
                        page_size > 0,
                        page > quot,
                        quot == (total - 1) as int / page_size as int,
                        total > 0,
                ;
            }
        }
        total
    };
    assert(start == page_start(total as nat, page as nat, page_size as nat));
    let end: usize = if total - start > page_size { start + page_size } else { total };
    let mut all = sorted;
    let ghost full = result_views(all@);
    let mut tail = all.split_off(start);
    tail.truncate(end - start);
    assert(result_views(tail@) =~= full.subrange(start as int, end as int));
    (tail, total)
}

} // verus!
