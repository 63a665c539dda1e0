//! Content-addressed catalog: file entries keyed by content hash, and the
//! locations (node, path) where each content lives.
use vstd::prelude::*;
use vstd::pervasive::VecAdditionalExecFns;
use crate::digest::{bytes_equal, copy_bytes};
use crate::entries::guess_mime;
use crate::search::mime_view;
use crate::scan::Location;

verus! {

/// Length of a node id: the leading bytes of the peer id.
pub const NODE_ID_LEN: usize = 16;

/// One content hash and what is known of it.
pub struct FileEntry {
    pub hash: Vec<u8>,
    pub size: u64,
    pub mime_type: Option<String>,
    pub first_seen: i64,
    pub latest_seen: i64,
}

/// Content with hash `hash` lives at `path` on node `node_id`.
pub struct StoredLocation {
    pub node_id: Vec<u8>,
    pub path: String,
    pub hash: Vec<u8>,
    pub size: u64,
}

/// Node id of a peer: its first 16 bytes; none for a shorter id.
pub fn node_id_of(peer: &[u8]) -> (r: Option<Vec<u8>>)
    ensures
        peer@.len() < NODE_ID_LEN ==> r is None,
        peer@.len() >= NODE_ID_LEN ==> r is Some && r->Some_0@ == peer@.subrange(
            0,
            NODE_ID_LEN as int,
        ),
{
    if peer.len() < NODE_ID_LEN {
        return None;
    }
    Some(prefix(peer, NODE_ID_LEN))
}

/// The first `n` bytes of `b` (all of it when shorter).
fn prefix(b: &[u8], n: usize) -> (r: Vec<u8>)
    ensures
        r@ == b@.subrange(0, if b@.len() < n { b@.len() as int } else { n as int }),
{
    let end = if b.len() < n { b.len() } else { n };
    let mut r: Vec<u8> = Vec::new();
    let mut i: usize = 0;
    while i < end
        invariant
            end <= b@.len(),
            i <= end,
            r@ == b@.subrange(0, i as int),
        decreases end - i,
    {
        r.push(b[i]);
        i = i + 1;
    }
    r
}

/// Repairs a stored node id that holds a longer prefix of the peer id.
pub fn normalize_node_id(id: &[u8]) -> (r: Vec<u8>)
    ensures
        r@ == id@.subrange(0, if id@.len() < NODE_ID_LEN { id@.len() as int } else { 16 }),
{
    prefix(id, NODE_ID_LEN)
}

/// Some entry of `entries` has hash `h`.
pub open spec fn has_entry(entries: Seq<FileEntry>, h: Seq<u8>) -> bool {
    exists|j: int| 0 <= j < entries.len() && (#[trigger] entries[j]).hash@ == h
}

/// A location for (`node`, `path`) with hash `h` is stored.
pub open spec fn has_location(
    locs: Seq<StoredLocation>,
    node: Seq<u8>,
    path: Seq<char>,
    h: Seq<u8>,
) -> bool {
    exists|k: int|
        0 <= k < locs.len() && (#[trigger] locs[k]).node_id@ == node && locs[k].path@ == path
            && locs[k].hash@ == h
}

/// The catalog of one node.
pub struct Catalog {
    entries: Vec<FileEntry>,
    locations: Vec<StoredLocation>,
}

impl Catalog {
    pub closed spec fn spec_entries(&self) -> Seq<FileEntry> {
        self.entries@
    }

    pub closed spec fn spec_locations(&self) -> Seq<StoredLocation> {
        self.locations@
    }

    /// Every location names a hash that has an entry.
    pub open spec fn wf(&self) -> bool {
        forall|k: int|
            0 <= k < self.spec_locations().len() ==> has_entry(
                self.spec_entries(),
                (#[trigger] self.spec_locations()[k]).hash@,
            )
    }

    pub fn new() -> (r: Catalog)
        ensures
            r.wf(),
            r.spec_entries().len() == 0,
            r.spec_locations().len() == 0,
    {
        Catalog { entries: Vec::new(), locations: Vec::new() }
    }

    pub fn entries(&self) -> (r: &Vec<FileEntry>)
        ensures
            r@ == self.spec_entries(),
    {
        &self.entries
    }

    pub fn locations(&self) -> (r: &Vec<StoredLocation>)
        ensures
            r@ == self.spec_locations(),
    {
        &self.locations
    }

    fn find_entry(&self, hash: &[u8]) -> (r: Option<usize>)
        ensures
            r is Some ==> r->Some_0 < self.entries@.len() && self.entries@[r->Some_0 as int].hash@
                == hash@ && forall|j: int| 0 <= j < r->Some_0 ==> (#[trigger] self.entries@[j]).hash@ != hash@,
            r is None ==> !has_entry(self.entries@, hash@),
    {
        let mut i: usize = 0;
        while i < self.entries.len()
            invariant
                i <= self.entries@.len(),
                forall|j: int| 0 <= j < i ==> (#[trigger] self.entries@[j]).hash@ != hash@,
            decreases self.entries.len() - i,
        {
            if bytes_equal(self.entries[i].hash.as_slice(), hash) {
                return Some(i);
            }
            i = i + 1;
        }
        None
    }

    fn find_location(&self, node_id: &[u8], path: &String) -> (r: Option<usize>)
        ensures
            r is Some ==> r->Some_0 < self.locations@.len() && self.locations@[r->Some_0 as int].node_id@
                == node_id@ && self.locations@[r->Some_0 as int].path@ == path@,
    {
        let mut i: usize = 0;
        while i < self.locations.len()
            invariant
                i <= self.locations@.len(),
            decreases self.locations.len() - i,
        {
            if bytes_equal(self.locations[i].node_id.as_slice(), node_id) && self.locations[i].path
                == *path {
                return Some(i);
            }
            i = i + 1;
        }
        None
    }

    /// Records that content `hash` of `size` bytes was seen at `now`: a new
    /// entry on first sighting, else its latest sighting is moved forward
    /// (and its mime type refreshed when one is given).
    pub fn upsert_entry(&mut self, hash: &[u8], size: u64, mime_type: Option<String>, now: i64)
        requires
            old(self).wf(),
        ensures
            final(self).wf(),
            has_entry(final(self).spec_entries(), hash@),
            exists|j: int|
                0 <= j < final(self).spec_entries().len() && (#[trigger] final(self).spec_entries()[j]).hash@
                    == hash@ && final(self).spec_entries()[j].latest_seen == now
                    && final(self).spec_entries()[j].size == size,
            final(self).spec_locations() == old(self).spec_locations(),
            forall|h: Seq<u8>| has_entry(old(self).spec_entries(), h) ==> has_entry(final(self).spec_entries(), h),
            !has_entry(old(self).spec_entries(), hash@) ==> {
                let e = final(self).spec_entries().last();
                &&& final(self).spec_entries().drop_last() == old(self).spec_entries()
                &&& final(self).spec_entries().len() == old(self).spec_entries().len() + 1
                &&& e.hash@ == hash@ && e.size == size && e.first_seen == now && e.latest_seen == now
                &&& mime_view(e.mime_type) == mime_view(mime_type)
            },
            has_entry(old(self).spec_entries(), hash@) ==> exists|k: int|
                0 <= k < old(self).spec_entries().len() && (#[trigger] old(self).spec_entries()[k]).hash@
                    == hash@ && (forall|j: int|
                    0 <= j < k ==> (#[trigger] old(self).spec_entries()[j]).hash@ != hash@)
                    && final(self).spec_entries().len() == old(self).spec_entries().len() && (forall|j: int|
                    0 <= j < old(self).spec_entries().len() && j != k ==> (#[trigger] final(self).spec_entries()[j]) == old(self).spec_entries()[j]) && final(self).spec_entries()[k].size
                    == size && final(self).spec_entries()[k].latest_seen == now
                    && final(self).spec_entries()[k].first_seen == old(self).spec_entries()[k].first_seen
                    && mime_view(final(self).spec_entries()[k].mime_type) == (if mime_type is Some {
                    mime_view(mime_type)
                } else {
                    mime_view(old(self).spec_entries()[k].mime_type)
                }),
    {
        let ghost start = self.entries@;
        match self.find_entry(hash) {
            Some(k) => {
                let ghost before = self.entries@;
                let mime = match mime_type {
                    Some(m) => Some(m),
                    None => match &self.entries[k].mime_type {
                        Some(m) => Some(m.clone()),
                        None => None,
                    },
                };
                let first = self.entries[k].first_seen;
                let e = FileEntry {
                    hash: copy_bytes(hash),
                    size,
                    mime_type: mime,
                    first_seen: first,
                    latest_seen: now,
                };
                self.entries.set(k, e);
                assert(self.entries@[k as int].hash@ == hash@);
                assert(self.entries@[k as int].latest_seen == now && self.entries@[k as int].size == size);
                assert forall|h: Seq<u8>| has_entry(before, h) implies has_entry(self.entries@, h) by {
                    let j = choose|j: int| 0 <= j < before.len() && (#[trigger] before[j]).hash@ == h;
                    assert(self.entries@[j].hash@ == h);
                }
            },
            None => {
                let ghost before = self.entries@;
                self.entries.push(
                    FileEntry {
                        hash: copy_bytes(hash),
                        size,
                        mime_type,
                        first_seen: now,
                        latest_seen: now,
                    },
                );
                assert(self.entries@[before.len() as int].hash@ == hash@);
                assert(self.entries@[before.len() as int].latest_seen == now);
                assert forall|h: Seq<u8>| has_entry(before, h) implies has_entry(self.entries@, h) by {
                    let j = choose|j: int| 0 <= j < before.len() && (#[trigger] before[j]).hash@ == h;
                    assert(self.entries@[j] == before[j]);
                }
            },
        }
        assert forall|k: int| 0 <= k < self.locations@.len() implies has_entry(
            self.entries@,
            (#[trigger] self.locations@[k]).hash@,
        ) by {
            assert(has_entry(old(self).spec_entries(), old(self).spec_locations()[k].hash@));
            assert(has_entry(start, self.locations@[k].hash@));
        }
    }

    /// Stores that (`node_id`, `path`) holds content `hash`, replacing the
    /// hash stored for that pair before.
    pub fn upsert_location(&mut self, node_id: &[u8], path: &String, hash: &[u8], size: u64)
        requires
            old(self).wf(),
            has_entry(old(self).spec_entries(), hash@),
        ensures
            final(self).wf(),
            final(self).spec_entries() == old(self).spec_entries(),
            has_location(final(self).spec_locations(), node_id@, path@, hash@),
            forall|k: int|
                0 <= k < old(self).spec_locations().len() && !((#[trigger] old(self).spec_locations()[k]).node_id@
                    == node_id@ && old(self).spec_locations()[k].path@ == path@) ==> has_location(
                    final(self).spec_locations(),
                    old(self).spec_locations()[k].node_id@,
                    old(self).spec_locations()[k].path@,
                    old(self).spec_locations()[k].hash@,
                ),
    {
        let loc = StoredLocation {
            node_id: copy_bytes(node_id),
            path: path.clone(),
            hash: copy_bytes(hash),
            size,
        };
        let ghost before = self.locations@;
        match self.find_location(node_id, path) {
            Some(k) => {
                self.locations.set(k, loc);
                assert(self.locations@[k as int].hash@ == hash@);
            },
            None => {
                self.locations.push(loc);
                assert(self.locations@[self.locations@.len() - 1].hash@ == hash@);
            },
        }
        assert forall|k: int| 0 <= k < self.locations@.len() implies has_entry(
            self.entries@,
            (#[trigger] self.locations@[k]).hash@,
        ) by {
            if k < before.len() && self.locations@[k] == before[k] {
                assert(has_entry(old(self).spec_entries(), old(self).spec_locations()[k].hash@));
            }
        }
        assert forall|k: int|
            0 <= k < before.len() && !((#[trigger] before[k]).node_id@ == node_id@ && before[k].path@
                == path@) implies has_location(self.locations@, before[k].node_id@, before[k].path@, before[k].hash@) by {
            assert(self.locations@[k] == before[k]);
        }
    }

    /// Deletes every location of `node_id` whose path is in `paths`.
    pub fn remove_locations(&mut self, node_id: &[u8], paths: &Vec<String>)
        requires
            old(self).wf(),
        ensures
            final(self).wf(),
            final(self).spec_entries() == old(self).spec_entries(),
            forall|k: int|
                0 <= k < final(self).spec_locations().len() ==> !((#[trigger] final(self).spec_locations()[k]).node_id@ == node_id@ && exists|i: int|
                    0 <= i < paths@.len() && paths@[i]@ == final(self).spec_locations()[k].path@),
            forall|k: int|
                0 <= k < old(self).spec_locations().len() && !((#[trigger] old(self).spec_locations()[k]).node_id@ == node_id@ && exists|i: int|
                    0 <= i < paths@.len() && paths@[i]@ == old(self).spec_locations()[k].path@)
                    ==> has_location(
                    final(self).spec_locations(),
                    old(self).spec_locations()[k].node_id@,
                    old(self).spec_locations()[k].path@,
                    old(self).spec_locations()[k].hash@,
                ),
    {
        let mut kept: Vec<StoredLocation> = Vec::new();
        let ghost olds = self.locations@;
        let n = self.locations.len();
        let mut i: usize = 0;
        while i < n
            invariant
                n == olds.len(),
                i <= n,
                self.locations@ == olds,
                forall|k: int| 0 <= k < kept@.len() ==> has_entry(self.entries@, (#[trigger] kept@[k]).hash@),
                forall|k: int|
                    0 <= k < kept@.len() ==> !((#[trigger] kept@[k]).node_id@ == node_id@ && exists|j: int|
                        0 <= j < paths@.len() && paths@[j]@ == kept@[k].path@),
                forall|k: int|
                    0 <= k < i && !((#[trigger] olds[k]).node_id@ == node_id@ && exists|j: int|
                        0 <= j < paths@.len() && paths@[j]@ == olds[k].path@) ==> has_location(
                        kept@,
                        olds[k].node_id@,
                        olds[k].path@,
                        olds[k].hash@,
                    ),
                forall|k: int| 0 <= k < olds.len() ==> has_entry(self.entries@, (#[trigger] olds[k]).hash@),
            decreases n - i,
        {
            let loc = &self.locations[i];
            let mut listed = false;
            let mut j: usize = 0;
            while j < paths.len()
                invariant
                    j <= paths@.len(),
                    listed == exists|m: int| 0 <= m < j && paths@[m]@ == loc.path@,
                decreases paths.len() - j,
            {
                if paths[j] == loc.path {
                    listed = true;
                }
                j = j + 1;
            }
            let drop = listed && bytes_equal(loc.node_id.as_slice(), node_id);
            if !drop {
                let ghost before = kept@;
                kept.push(
                    StoredLocation {
                        node_id: copy_bytes(loc.node_id.as_slice()),
                        path: loc.path.clone(),
                        hash: copy_bytes(loc.hash.as_slice()),
                        size: loc.size,
                    },
                );
                assert forall|k: int|
                    0 <= k < i && !((#[trigger] olds[k]).node_id@ == node_id@ && exists|m: int|
                        0 <= m < paths@.len() && paths@[m]@ == olds[k].path@) implies has_location(
                    kept@,
                    olds[k].node_id@,
                    olds[k].path@,
                    olds[k].hash@,
                ) by {
                    let w = choose|w: int|
                        0 <= w < before.len() && (#[trigger] before[w]).node_id@ == olds[k].node_id@
                            && before[w].path@ == olds[k].path@ && before[w].hash@ == olds[k].hash@;
                    assert(kept@[w] == before[w]);
                }
                assert(kept@[before.len() as int].node_id@ == olds[i as int].node_id@);
            }
            i = i + 1;
        }
        self.locations = kept;
    }

    /// Stores the outcome of a scan pass of node `node_id`: an entry (with
    /// the mime type its path suggests) and a location for every visited
    /// file, and the removed paths deleted. Locations of other nodes, and
    /// of paths neither visited nor removed, stay.
    pub fn apply_scan(
        &mut self,
        node_id: &[u8],
        visited: &Vec<Location>,
        removed: &Vec<String>,
        now: i64,
    )
        requires
            old(self).wf(),
        ensures
            final(self).wf(),
            forall|i: int|
                0 <= i < visited@.len() ==> has_entry(
                    final(self).spec_entries(),
                    (#[trigger] visited@[i]).hash@,
                ),
            forall|i: int|
                0 <= i < visited@.len() && !path_listed(removed@, visited@[i].path@)
                    && !visited_later(visited@, i, visited@.len() as int) ==> has_location(
                    final(self).spec_locations(),
                    node_id@,
                    (#[trigger] visited@[i]).path@,
                    visited@[i].hash@,
                ),
            forall|k: int|
                0 <= k < final(self).spec_locations().len() ==> !((#[trigger] final(self).spec_locations()[k]).node_id@ == node_id@ && path_listed(
                    removed@,
                    final(self).spec_locations()[k].path@,
                )),
            forall|k: int|
                0 <= k < old(self).spec_locations().len() && !((#[trigger] old(self).spec_locations()[k]).node_id@ == node_id@ && (path_visited(
                    visited@,
                    visited@.len() as int,
                    old(self).spec_locations()[k].path@,
                ) || path_listed(removed@, old(self).spec_locations()[k].path@))) ==> has_location(
                    final(self).spec_locations(),
                    old(self).spec_locations()[k].node_id@,
                    old(self).spec_locations()[k].path@,
                    old(self).spec_locations()[k].hash@,
                ),
    {
        let ghost olds = self.locations@;
        let mut i: usize = 0;
        while i < visited.len()
            invariant
                self.wf(),
                i <= visited@.len(),
                forall|k: int| 0 <= k < i ==> has_entry(self.spec_entries(), (#[trigger] visited@[k]).hash@),
                forall|k: int|
                    0 <= k < i && !visited_later(visited@, k, i as int) ==> has_location(
                        self.spec_locations(),
                        node_id@,
                        (#[trigger] visited@[k]).path@,
                        visited@[k].hash@,
                    ),
                forall|k: int|
                    0 <= k < olds.len() && !((#[trigger] olds[k]).node_id@ == node_id@ && path_visited(
                        visited@,
                        i as int,
                        olds[k].path@,
                    )) ==> has_location(self.spec_locations(), olds[k].node_id@, olds[k].path@, olds[k].hash@),
            decreases visited.len() - i,
        {
            let v = &visited[i];
            let mime = guess_mime(v.path.as_str());
            self.upsert_entry(v.hash.as_slice(), v.size, mime, now);
            let ghost before = self.spec_locations();
            self.upsert_location(node_id, &v.path, v.hash.as_slice(), v.size);
            proof {
                let after = self.spec_locations();
                let vp = visited@[i as int].path@;
                assert forall|n: Seq<u8>, p: Seq<char>, h: Seq<u8>|
                    has_location(before, n, p, h) && !(n == node_id@ && p == vp) implies has_location(
                    after,
                    n,
                    p,
                    h,
                ) by {
                    let w = choose|w: int|
                        0 <= w < before.len() && (#[trigger] before[w]).node_id@ == n && before[w].path@ == p
                            && before[w].hash@ == h;
                    assert(!(before[w].node_id@ == node_id@ && before[w].path@ == vp));
                }
                assert forall|k: int|
                    0 <= k < i + 1 && !visited_later(visited@, k, i + 1) implies has_location(
                    after,
                    node_id@,
                    (#[trigger] visited@[k]).path@,
                    visited@[k].hash@,
                ) by {
                    if k < i {
                        if visited_later(visited@, k, i as int) {
                            let j = choose|j: int| k < j < i && (#[trigger] visited@[j]).path@ == visited@[k].path@;
                            assert(visited@[j].path@ == visited@[k].path@);
                        }
                        if visited@[k].path@ == vp {
                            assert(visited@[i as int].path@ == visited@[k].path@);
                        }
                    }
                }
                assert forall|k: int|
                    0 <= k < olds.len() && !((#[trigger] olds[k]).node_id@ == node_id@ && path_visited(
                        visited@,
                        i + 1,
                        olds[k].path@,
                    )) implies has_location(after, olds[k].node_id@, olds[k].path@, olds[k].hash@) by {
                    if path_visited(visited@, i as int, olds[k].path@) {
                        let j = choose|j: int| 0 <= j < i && (#[trigger] visited@[j]).path@ == olds[k].path@;
                        assert(visited@[j].path@ == olds[k].path@);
                    }
                    if olds[k].node_id@ == node_id@ && olds[k].path@ == vp {
                        assert(visited@[i as int].path@ == olds[k].path@);
                    }
                }
            }
            i = i + 1;
        }
        let ghost before = self.spec_locations();
        self.remove_locations(node_id, removed);
        proof {
            let after = self.spec_locations();
            assert forall|n: Seq<u8>, p: Seq<char>, h: Seq<u8>|
                has_location(before, n, p, h) && !(n == node_id@ && path_listed(removed@, p)) implies has_location(
                after,
                n,
                p,
                h,
            ) by {
                let w = choose|w: int|
                    0 <= w < before.len() && (#[trigger] before[w]).node_id@ == n && before[w].path@ == p
                        && before[w].hash@ == h;
                assert(!(before[w].node_id@ == node_id@ && path_listed(removed@, before[w].path@)));
            }
        }
    }
}

/// `p` is one of `paths`.
pub open spec fn path_listed(paths: Seq<String>, p: Seq<char>) -> bool {
    exists|r: int| 0 <= r < paths.len() && (#[trigger] paths[r])@ == p
}

/// A visit before `end` names `p`.
pub open spec fn path_visited(visited: Seq<Location>, end: int, p: Seq<char>) -> bool {
    exists|j: int| 0 <= j < end && (#[trigger] visited[j]).path@ == p
}

/// The path of visit `i` is visited again before `end`.
pub open spec fn visited_later(visited: Seq<Location>, i: int, end: int) -> bool {
    exists|j: int| i < j < end && (#[trigger] visited[j]).path@ == visited[i].path@
}

} // verus!
