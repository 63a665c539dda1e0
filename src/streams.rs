//! Local ends of remote progress streams (a scan or an update running on
//! another node): which stream ids are open, and when an inbound event
//! closes one.
use vstd::prelude::*;
use std::collections::HashSet;

verus! {

broadcast use vstd::std_specs::hash::group_hash_axioms;

/// The open remote streams of one kind.
pub struct RemoteStreams {
    open: HashSet<u64>,
    next_id: u64,
}

impl View for RemoteStreams {
    type V = Set<u64>;

    closed spec fn view(&self) -> Set<u64> {
        self.open@
    }
}

impl RemoteStreams {
    pub closed spec fn spec_next_id(&self) -> u64 {
        self.next_id
    }

    /// Every open id was handed out before the next one.
    pub closed spec fn wf(&self) -> bool {
        forall|id: u64| self.open@.contains(id) ==> id < self.next_id
    }

    pub fn new() -> (r: RemoteStreams)
        ensures
            r.wf(),
            r@ == Set::<u64>::empty(),
    {
        RemoteStreams { open: HashSet::new(), next_id: 0 }
    }

    /// Opens a stream under a fresh id; none once the ids are used up.
    pub fn open_stream(&mut self) -> (r: Option<u64>)
        requires
            old(self).wf(),
        ensures
            final(self).wf(),
            r is Some ==> !old(self)@.contains(r->Some_0) && final(self)@ == old(self)@.insert(
                r->Some_0,
            ),
            r is None ==> final(self)@ == old(self)@,
            old(self).spec_next_id() < u64::MAX ==> r is Some,
    {
        if self.next_id == u64::MAX {
            return None;
        }
        let id = self.next_id;
        self.next_id = self.next_id + 1;
        self.open.insert(id);
        Some(id)
    }

    /// Whether stream `id` is open.
    pub fn is_open(&self, id: u64) -> (r: bool)
        ensures
            r == self@.contains(id),
    {
        self.open.contains(&id)
    }

    /// An event arrived for stream `id`: it is forwarded when the stream is
    /// open, and a terminal event closes the stream.
    pub fn on_event(&mut self, id: u64, terminal: bool) -> (r: bool)
        requires
            old(self).wf(),
        ensures
            final(self).wf(),
            r == old(self)@.contains(id),
            terminal ==> final(self)@ == old(self)@.remove(id),
            !terminal ==> final(self)@ == old(self)@,
    {
        let open = self.open.contains(&id);
        if terminal {
            self.open.remove(&id);
        }
        open
    }

    /// Closes stream `id`; whether it was open.
    pub fn close(&mut self, id: u64) -> (r: bool)
        requires
            old(self).wf(),
        ensures
            final(self).wf(),
            r == old(self)@.contains(id),
            final(self)@ == old(self)@.remove(id),
    {
        self.open.remove(&id)
    }
}

} // verus!
