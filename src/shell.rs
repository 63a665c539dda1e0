//! Remote shell sessions: one live process per session id, and how much
//! output one ShellInput request collects.
use vstd::prelude::*;
use std::collections::HashSet;

verus! {

broadcast use vstd::std_specs::hash::group_hash_axioms;

/// Output bytes gathered for one ShellInput request at most (the read that
/// crosses the cap is kept whole).
pub const SHELL_OUTPUT_CAP: usize = 65536;

/// The live shell sessions of a node, by id.
pub struct ShellSessions {
    live: HashSet<u64>,
}

impl View for ShellSessions {
    type V = Set<u64>;

    closed spec fn view(&self) -> Set<u64> {
        self.live@
    }
}

impl ShellSessions {
    pub fn new() -> (r: ShellSessions)
        ensures
            r@ == Set::<u64>::empty(),
    {
        ShellSessions { live: HashSet::new() }
    }

    /// Starts session `id`; true when a live session had that id, whose
    /// process must then be terminated.
    pub fn start(&mut self, id: u64) -> (r: bool)
        ensures
            r == old(self)@.contains(id),
            final(self)@ == old(self)@.insert(id),
    {
        !self.live.insert(id)
    }

    /// Whether session `id` is live.
    pub fn is_live(&self, id: u64) -> (r: bool)
        ensures
            r == self@.contains(id),
    {
        self.live.contains(&id)
    }

    /// Session `id` ended (its output closed or failed).
    pub fn end(&mut self, id: u64) -> (r: bool)
        ensures
            r == old(self)@.contains(id),
            final(self)@ == old(self)@.remove(id),
    {
        self.live.remove(&id)
    }
}

/// Appends one read of shell output; true once the request has gathered
/// enough and should answer.
pub fn gather_output(out: &mut Vec<u8>, read: &[u8]) -> (r: bool)
    requires
        old(out)@.len() + read@.len() <= usize::MAX,
    ensures
        final(out)@ == old(out)@ + read@,
        r == (final(out)@.len() >= SHELL_OUTPUT_CAP),
{
    let mut i: usize = 0;
    let ghost start = out@;
    while i < read.len()
        invariant
            i <= read@.len(),
            out@ == start + read@.subrange(0, i as int),
        decreases read.len() - i,
    {
        out.push(read[i]);
        assert(read@.subrange(0, i + 1) =~= read@.subrange(0, i as int).push(read@[i as int]));
        i = i + 1;
    }
    assert(read@.subrange(0, read@.len() as int) =~= read@);
    out.len() >= SHELL_OUTPUT_CAP
}

} // verus!
