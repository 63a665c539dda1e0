//! Scan engine bookkeeping: compares the files found by one pass over a
//! tree with the locations stored by earlier passes, counts what is new,
//! changed and gone, and emits the progress stream.
use vstd::prelude::*;
use crate::digest::{sha256, sha256_of};

verus! {

/// Where a content hash was found: a path on this node, its hash, its size.
pub struct Location {
    pub path: String,
    pub hash: Vec<u8>,
    pub size: u64,
}

/// Progress of a running scan.
#[derive(Debug, Clone, Copy, PartialEq, Eq, Structural)]
pub struct ScanProgress {
    pub processed_files: u64,
    pub total_files: u64,
    pub inserted_count: u64,
    pub updated_count: u64,
    pub removed_count: u64,
}

/// Outcome of a finished scan.
#[derive(Debug, Clone, Copy, PartialEq, Eq, Structural)]
pub struct ScanStats {
    pub inserted_count: u64,
    pub updated_count: u64,
    pub removed_count: u64,
    pub duration_ms: u64,
}

/// One event of a scan stream; `Finished` is always the last.
#[derive(Debug)]
pub enum ScanEvent {
    Progress(ScanProgress),
    Finished(Result<ScanStats, String>),
}

/// Hash stored for `path` in `locs` (the first row that names it).
pub open spec fn lookup(locs: Seq<Location>, path: Seq<char>) -> Option<Seq<u8>>
    decreases locs.len(),
{
    if locs.len() == 0 {
        None
    } else if locs[0].path@ == path {
        Some(locs[0].hash@)
    } else {
        lookup(locs.drop_first(), path)
    }
}

/// Files of `vis` whose path was not stored before.
pub open spec fn count_new(vis: Seq<Location>, prev: Seq<Location>) -> nat
    decreases vis.len(),
{
    if vis.len() == 0 {
        0
    } else {
        count_new(vis.drop_last(), prev) + if lookup(prev, vis.last().path@) is None {
            1nat
        } else {
            0nat
        }
    }
}

/// Files of `vis` stored before under another hash.
pub open spec fn count_changed(vis: Seq<Location>, prev: Seq<Location>) -> nat
    decreases vis.len(),
{
    if vis.len() == 0 {
        0
    } else {
        count_changed(vis.drop_last(), prev) + if lookup(prev, vis.last().path@) is Some
            && lookup(prev, vis.last().path@)->Some_0 != vis.last().hash@ {
            1nat
        } else {
            0nat
        }
    }
}

/// Stored locations that the pass `vis` did not visit.
pub open spec fn count_missing(prev: Seq<Location>, vis: Seq<Location>) -> nat
    decreases prev.len(),
{
    if prev.len() == 0 {
        0
    } else {
        count_missing(prev.drop_last(), vis) + if lookup(vis, prev.last().path@) is None {
            1nat
        } else {
            0nat
        }
    }
}

proof fn lemma_counts_bounded(vis: Seq<Location>, prev: Seq<Location>)
    ensures
        count_new(vis, prev) <= vis.len(),
        count_changed(vis, prev) <= vis.len(),
        count_missing(prev, vis) <= prev.len(),
    decreases vis.len() + prev.len(),
{
    if vis.len() > 0 {
        lemma_counts_bounded(vis.drop_last(), prev);
    }
    if prev.len() > 0 {
        lemma_counts_bounded(vis, prev.drop_last());
    }
}

/// Finds the stored hash of `path` in `locs`.
fn find_location(locs: &Vec<Location>, path: &String) -> (r: Option<usize>)
    ensures
        r is None ==> lookup(locs@, path@) is None,
        r is Some ==> r->Some_0 < locs@.len() && lookup(locs@, path@) == Some(
            locs@[r->Some_0 as int].hash@,
        ),
{
    let n = locs.len();
    let mut i: usize = 0;
    assert(locs@.subrange(0, n as int) =~= locs@);
    while i < n
        invariant
            i <= n == locs@.len(),
            lookup(locs@, path@) == lookup(locs@.subrange(i as int, n as int), path@),
        decreases n - i,
    {
        let ghost rest = locs@.subrange(i as int, n as int);
        assert(rest[0] == locs@[i as int]);
        if locs[i].path == *path {
            return Some(i);
        }
        assert(rest.drop_first() =~= locs@.subrange(i + 1, n as int));
        i = i + 1;
    }
    None
}

/// Bookkeeping of one scan pass under one root.
pub struct ScanRun {
    previous: Vec<Location>,
    visited: Vec<Location>,
    total: u64,
    inserted: u64,
    updated: u64,
    finished: bool,
}

impl ScanRun {
    pub closed spec fn spec_previous(&self) -> Seq<Location> {
        self.previous@
    }

    pub closed spec fn spec_visited(&self) -> Seq<Location> {
        self.visited@
    }

    pub closed spec fn spec_total(&self) -> u64 {
        self.total
    }

    pub closed spec fn spec_finished(&self) -> bool {
        self.finished
    }

    pub closed spec fn spec_inserted(&self) -> u64 {
        self.inserted
    }

    pub closed spec fn spec_updated(&self) -> u64 {
        self.updated
    }

    /// Counters agree with what was visited: new paths were inserted,
    /// stored paths with another hash were updated.
    pub open spec fn wf(&self) -> bool {
        &&& self.spec_inserted() == count_new(self.spec_visited(), self.spec_previous())
        &&& self.spec_updated() == count_changed(self.spec_visited(), self.spec_previous())
    }

    /// Progress that the bookkeeping stands for.
    pub open spec fn progress_view(&self) -> ScanProgress {
        ScanProgress {
            processed_files: self.spec_visited().len() as u64,
            total_files: self.spec_total(),
            inserted_count: self.spec_inserted(),
            updated_count: self.spec_updated(),
            removed_count: 0,
        }
    }

    /// Starts a pass over a tree of `total_files` files, against the
    /// locations stored for the same node and root by earlier passes.
    pub fn new(previous: Vec<Location>, total_files: u64) -> (r: ScanRun)
        ensures
            r.wf(),
            r.spec_previous() == previous@,
            r.spec_visited().len() == 0,
            r.spec_total() == total_files,
            !r.spec_finished(),
    {
        ScanRun {
            previous,
            visited: Vec::new(),
            total: total_files,
            inserted: 0,
            updated: 0,
            finished: false,
        }
    }

    /// Current progress.
    pub fn progress(&self) -> (r: ScanProgress)
        requires
            self.wf(),
        ensures
            r == self.progress_view(),
    {
        ScanProgress {
            processed_files: self.visited.len() as u64,
            total_files: self.total,
            inserted_count: self.inserted,
            updated_count: self.updated,
            removed_count: 0,
        }
    }

    /// Locations visited so far, in the order of the walk.
    pub fn visited(&self) -> (r: &Vec<Location>)
        ensures
            r@ == self.spec_visited(),
    {
        &self.visited
    }

    /// Records one file found by the walk with its content hash and emits
    /// the progress that follows. After the scan has finished nothing is
    /// recorded or emitted; a path seen before in this pass is not counted
    /// twice.
    pub fn record_file(&mut self, path: String, hash: Vec<u8>, size: u64) -> (r: Option<
        ScanEvent,
    >)
        requires
            old(self).wf(),
            old(self).spec_visited().len() < usize::MAX,
        ensures
            final(self).wf(),
            final(self).spec_previous() == old(self).spec_previous(),
            final(self).spec_total() == old(self).spec_total(),
            final(self).spec_finished() == old(self).spec_finished(),
            old(self).spec_finished() ==> r is None && final(self).spec_visited() == old(self).spec_visited(),
            !old(self).spec_finished() && lookup(old(self).spec_visited(), path@) is Some ==> r
                == Some(ScanEvent::Progress(old(self).progress_view())) && final(self).spec_visited()
                == old(self).spec_visited(),
            !old(self).spec_finished() && lookup(old(self).spec_visited(), path@) is None ==> r
                == Some(ScanEvent::Progress(final(self).progress_view())) && final(self).spec_visited() == old(self).spec_visited().push(
                Location { path, hash, size },
            ),
    {
        if self.finished {
            return None;
        }
        if find_location(&self.visited, &path).is_some() {
            return Some(ScanEvent::Progress(self.progress()));
        }
        let stored = find_location(&self.previous, &path);
        let ghost vis0 = self.visited@;
        let ghost loc = Location { path, hash, size };
        proof {
            lemma_counts_bounded(vis0, self.previous@);
        }
        match stored {
            None => {
                self.inserted = self.inserted + 1;
            },
            Some(k) => {
                if !crate::digest::bytes_equal(self.previous[k].hash.as_slice(), hash.as_slice()) {
                    self.updated = self.updated + 1;
                }
            },
        }
        self.visited.push(Location { path, hash, size });
        proof {
            assert(self.visited@.drop_last() =~= vis0);
            assert(self.visited@.last() == loc);
        }
        Some(ScanEvent::Progress(self.progress()))
    }

    /// Hashes the contents of a file found by the walk and records it.
    pub fn record_contents(&mut self, path: String, contents: &[u8]) -> (r: Option<ScanEvent>)
        requires
            old(self).wf(),
            old(self).spec_visited().len() < usize::MAX,
        ensures
            final(self).wf(),
            final(self).spec_previous() == old(self).spec_previous(),
            final(self).spec_total() == old(self).spec_total(),
            final(self).spec_finished() == old(self).spec_finished(),
            old(self).spec_finished() ==> r is None && final(self).spec_visited() == old(self).spec_visited(),
            !old(self).spec_finished() && lookup(old(self).spec_visited(), path@) is None ==> r
                == Some(ScanEvent::Progress(final(self).progress_view())) && final(self).spec_visited().drop_last()
                == old(self).spec_visited() && final(self).spec_visited().len() == old(self).spec_visited().len() + 1
                && final(self).spec_visited().last().path@ == path@ && final(self).spec_visited().last().hash@
                == sha256_of(contents@) && final(self).spec_visited().last().size
                == contents@.len(),
            !old(self).spec_finished() && lookup(old(self).spec_visited(), path@) is Some ==> r
                == Some(ScanEvent::Progress(old(self).progress_view())) && final(self).spec_visited()
                == old(self).spec_visited(),
    {
        let hash = sha256(contents);
        let size = contents.len() as u64;
        self.record_file(path, hash, size)
    }

    /// Ends the pass: the stored locations that were not visited are the
    /// ones to remove. Emits the terminal event once; later calls emit
    /// nothing.
    pub fn finish(&mut self, duration_ms: u64) -> (r: Option<(ScanEvent, Vec<String>)>)
        requires
            old(self).wf(),
        ensures
            final(self).wf(),
            final(self).spec_finished(),
            final(self).spec_visited() == old(self).spec_visited(),
            final(self).spec_previous() == old(self).spec_previous(),
            old(self).spec_finished() ==> r is None,
            !old(self).spec_finished() ==> r is Some && r->Some_0.0 == ScanEvent::Finished(
                Ok(
                    ScanStats {
                        inserted_count: old(self).spec_inserted(),
                        updated_count: old(self).spec_updated(),
                        removed_count: count_missing(
                            old(self).spec_previous(),
                            old(self).spec_visited(),
                        ) as u64,
                        duration_ms,
                    },
                ),
            ) && r->Some_0.1@.len() == count_missing(
                old(self).spec_previous(),
                old(self).spec_visited(),
            ) && (forall|i: int|
                0 <= i < r->Some_0.1@.len() ==> lookup(
                    old(self).spec_visited(),
                    #[trigger] r->Some_0.1@[i]@,
                ) is None && lookup(old(self).spec_previous(), r->Some_0.1@[i]@) is Some),
    {
        if self.finished {
            return None;
        }
        self.finished = true;
        let mut removed: Vec<String> = Vec::new();
        let n = self.previous.len();
        let mut i: usize = 0;
        proof {
            lemma_counts_bounded(self.visited@, self.previous@);
        }
        while i < n
            invariant
                i <= n == self.previous@.len(),
                removed@.len() == count_missing(self.previous@.subrange(0, i as int), self.visited@),
                removed@.len() <= i,
                forall|j: int|
                    0 <= j < removed@.len() ==> lookup(self.visited@, #[trigger] removed@[j]@)
                        is None && lookup(self.previous@, removed@[j]@) is Some,
            decreases n - i,
        {
            let ghost pre = self.previous@.subrange(0, i as int);
            assert(self.previous@.subrange(0, i + 1).drop_last() =~= pre);
            let path = &self.previous[i].path;
            if find_location(&self.visited, path).is_none() {
                proof {
                    lemma_lookup_present(self.previous@, i as int);
                }
                removed.push(path.clone());
            }
            i = i + 1;
        }
        assert(self.previous@.subrange(0, n as int) =~= self.previous@);
        let stats = ScanStats {
            inserted_count: self.inserted,
            updated_count: self.updated,
            removed_count: removed.len() as u64,
            duration_ms,
        };
        Some((ScanEvent::Finished(Ok(stats)), removed))
    }

    /// Ends the pass with an error (I/O, database, or cancellation); emits
    /// the terminal event once.
    pub fn fail(&mut self, message: String) -> (r: Option<ScanEvent>)
        ensures
            final(self).spec_finished(),
            final(self).spec_visited() == old(self).spec_visited(),
            final(self).spec_previous() == old(self).spec_previous(),
            final(self).spec_inserted() == old(self).spec_inserted(),
            final(self).spec_updated() == old(self).spec_updated(),
            old(self).spec_finished() ==> r is None,
            !old(self).spec_finished() ==> r == Some(ScanEvent::Finished(Err(message))),
    {
        if self.finished {
            return None;
        }
        self.finished = true;
        Some(ScanEvent::Finished(Err(message)))
    }

    /// Ends the pass because its cancel flag was raised.
    pub fn cancel(&mut self) -> (r: Option<ScanEvent>)
        ensures
            final(self).spec_finished(),
            final(self).spec_visited() == old(self).spec_visited(),
            final(self).spec_previous() == old(self).spec_previous(),
            final(self).spec_inserted() == old(self).spec_inserted(),
            final(self).spec_updated() == old(self).spec_updated(),
            old(self).spec_finished() ==> r is None,
            !old(self).spec_finished() ==> r is Some && r->Some_0 is Finished
                && r->Some_0->Finished_0 is Err && r->Some_0->Finished_0->Err_0@ == "cancelled"@,
    {
        self.fail(String::from_str("cancelled"))
    }
}

/// A path stored at index `k` is found by a lookup.
proof fn lemma_lookup_present(locs: Seq<Location>, k: int)
    requires
        0 <= k < locs.len(),
    ensures
        lookup(locs, locs[k].path@) is Some,
    decreases k,
{
    if k > 0 && locs[0].path@ != locs[k].path@ {
        assert(locs.drop_first()[k - 1] == locs[k]);
        lemma_lookup_present(locs.drop_first(), k - 1);
    }
}

/// Rescanning an unchanged tree: when every visited file is stored under
/// the same hash and every stored location is visited again, nothing is
/// inserted, updated or removed.
pub proof fn lemma_rescan_unchanged(prev: Seq<Location>, vis: Seq<Location>)
    requires
        forall|i: int| 0 <= i < vis.len() ==> lookup(prev, #[trigger] vis[i].path@) == Some(vis[i].hash@),
        forall|j: int| 0 <= j < prev.len() ==> lookup(vis, #[trigger] prev[j].path@) is Some,
    ensures
        count_new(vis, prev) == 0,
        count_changed(vis, prev) == 0,
        count_missing(prev, vis) == 0,
{
    lemma_no_new_or_changed(prev, vis);
    lemma_missing_only_at(prev, vis, -1);
}

proof fn lemma_no_new_or_changed(prev: Seq<Location>, vis: Seq<Location>)
    requires
        forall|i: int| 0 <= i < vis.len() ==> lookup(prev, #[trigger] vis[i].path@) == Some(vis[i].hash@),
    ensures
        count_new(vis, prev) == 0,
        count_changed(vis, prev) == 0,
    decreases vis.len(),
{
    if vis.len() > 0 {
        let rest = vis.drop_last();
        assert forall|i: int| 0 <= i < rest.len() implies lookup(prev, #[trigger] rest[i].path@) == Some(
            rest[i].hash@,
        ) by {
            assert(rest[i] == vis[i]);
        }
        lemma_no_new_or_changed(prev, rest);
        assert(lookup(prev, vis[vis.len() - 1].path@) == Some(vis[vis.len() - 1].hash@));
    }
}

/// Every stored location but the one at `k` (none when `k` is out of
/// range) is visited; counts the ones that are not.
proof fn lemma_missing_only_at(prev: Seq<Location>, vis: Seq<Location>, k: int)
    requires
        forall|j: int| 0 <= j < prev.len() && j != k ==> lookup(vis, #[trigger] prev[j].path@) is Some,
    ensures
        0 <= k < prev.len() && lookup(vis, prev[k].path@) is None ==> count_missing(prev, vis) == 1,
        !(0 <= k < prev.len()) ==> count_missing(prev, vis) == 0,
    decreases prev.len(),
{
    if prev.len() > 0 {
        let rest = prev.drop_last();
        assert forall|j: int| 0 <= j < rest.len() && j != k implies lookup(vis, #[trigger] rest[j].path@) is Some by {
            assert(rest[j] == prev[j]);
        }
        lemma_missing_only_at(rest, vis, k);
        if k == prev.len() - 1 {
            lemma_missing_only_at(rest, vis, -1);
        }
    }
}

/// Removing one file between two passes: when the second pass visits every
/// stored location but one, under unchanged hashes, it removes exactly that
/// one and inserts or updates nothing.
pub proof fn lemma_rescan_after_removal(prev: Seq<Location>, vis: Seq<Location>, k: int)
    requires
        0 <= k < prev.len(),
        lookup(vis, prev[k].path@) is None,
        forall|i: int| 0 <= i < vis.len() ==> lookup(prev, #[trigger] vis[i].path@) == Some(vis[i].hash@),
        forall|j: int| 0 <= j < prev.len() && j != k ==> lookup(vis, #[trigger] prev[j].path@) is Some,
    ensures
        count_new(vis, prev) == 0,
        count_changed(vis, prev) == 0,
        count_missing(prev, vis) == 1,
{
    lemma_no_new_or_changed(prev, vis);
    lemma_missing_only_at(prev, vis, k);
}

} // verus!
