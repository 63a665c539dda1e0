//! Live connections and discovered peer addresses, as the node loop keeps
//! them up to date from transport and discovery events.
use vstd::prelude::*;
use crate::digest::bytes_equal;

verus! {

/// A live transport connection.
pub struct Connection {
    pub peer_id: Vec<u8>,
    pub connection_id: u64,
}

/// An address at which a peer was seen.
pub struct DiscoveredPeer {
    pub peer_id: Vec<u8>,
    pub multiaddr: String,
}

/// The connections of `s` other than `id`, in order.
pub open spec fn without_connection(s: Seq<Connection>, id: u64) -> Seq<Connection>
    decreases s.len(),
{
    if s.len() == 0 {
        s
    } else if s.last().connection_id == id {
        without_connection(s.drop_last(), id)
    } else {
        without_connection(s.drop_last(), id).push(s.last())
    }
}

/// The entries of `s` other than (`peer`, `addr`), in order.
pub open spec fn without_address(s: Seq<DiscoveredPeer>, peer: Seq<u8>, addr: Seq<char>) -> Seq<
    DiscoveredPeer,
>
    decreases s.len(),
{
    if s.len() == 0 {
        s
    } else if s.last().peer_id@ == peer && s.last().multiaddr@ == addr {
        without_address(s.drop_last(), peer, addr)
    } else {
        without_address(s.drop_last(), peer, addr).push(s.last())
    }
}

/// The addresses recorded for `peer`, in order.
pub open spec fn addresses_of(s: Seq<DiscoveredPeer>, peer: Seq<u8>) -> Seq<Seq<char>>
    decreases s.len(),
{
    if s.len() == 0 {
        Seq::empty()
    } else if s.last().peer_id@ == peer {
        addresses_of(s.drop_last(), peer).push(s.last().multiaddr@)
    } else {
        addresses_of(s.drop_last(), peer)
    }
}

/// `(peer, addr)` is recorded in `s`.
pub open spec fn has_address(s: Seq<DiscoveredPeer>, peer: Seq<u8>, addr: Seq<char>) -> bool {
    exists|i: int| 0 <= i < s.len() && (#[trigger] s[i]).peer_id@ == peer && s[i].multiaddr@ == addr
}

/// Connection and discovery tables of a node.
pub struct PeerTables {
    connections: Vec<Connection>,
    discovered: Vec<DiscoveredPeer>,
}

impl PeerTables {
    pub closed spec fn spec_connections(&self) -> Seq<Connection> {
        self.connections@
    }

    pub closed spec fn spec_discovered(&self) -> Seq<DiscoveredPeer> {
        self.discovered@
    }

    pub fn new() -> (r: PeerTables)
        ensures
            r.spec_connections().len() == 0,
            r.spec_discovered().len() == 0,
    {
        PeerTables { connections: Vec::new(), discovered: Vec::new() }
    }

    pub fn connections(&self) -> (r: &Vec<Connection>)
        ensures
            r@ == self.spec_connections(),
    {
        &self.connections
    }

    pub fn discovered(&self) -> (r: &Vec<DiscoveredPeer>)
        ensures
            r@ == self.spec_discovered(),
    {
        &self.discovered
    }

    /// Records that `peer` was seen at `addr`; a pair seen before is kept
    /// once.
    pub fn peer_discovered(&mut self, peer: Vec<u8>, addr: String)
        ensures
            final(self).spec_connections() == old(self).spec_connections(),
            has_address(old(self).spec_discovered(), peer@, addr@) ==> final(self).spec_discovered()
                == old(self).spec_discovered(),
            !has_address(old(self).spec_discovered(), peer@, addr@) ==> final(self).spec_discovered()
                == old(self).spec_discovered().push(DiscoveredPeer { peer_id: peer, multiaddr: addr }),
    {
        let mut i: usize = 0;
        while i < self.discovered.len()
            invariant
                i <= self.discovered@.len(),
                forall|j: int|
                    0 <= j < i ==> !((#[trigger] self.discovered@[j]).peer_id@ == peer@
                        && self.discovered@[j].multiaddr@ == addr@),
            decreases self.discovered.len() - i,
        {
            if bytes_equal(self.discovered[i].peer_id.as_slice(), peer.as_slice())
                && self.discovered[i].multiaddr == addr {
                return;
            }
            i = i + 1;
        }
        self.discovered.push(DiscoveredPeer { peer_id: peer, multiaddr: addr });
    }

    /// Forgets that `peer` was seen at `addr`.
    pub fn peer_expired(&mut self, peer: &[u8], addr: &String)
        ensures
            final(self).spec_connections() == old(self).spec_connections(),
            final(self).spec_discovered() == without_address(old(self).spec_discovered(), peer@, addr@),
    {
        let ghost olds = self.discovered@;
        let ghost n = olds.len();
        let mut i: usize = 0;
        let ghost mut j: int = 0;
        while i < self.discovered.len()
            invariant
                0 <= j <= n == olds.len(),
                i <= self.discovered@.len(),
                self.connections@ == old(self).spec_connections(),
                self.discovered@ == without_address(olds.subrange(0, j), peer@, addr@) + olds.subrange(j, n as int),
                i == without_address(olds.subrange(0, j), peer@, addr@).len(),
            decreases self.discovered@.len() - i,
        {
            let ghost kept = without_address(olds.subrange(0, j), peer@, addr@);
            assert(self.discovered@[i as int] == olds[j]);
            assert(olds.subrange(0, j + 1).drop_last() =~= olds.subrange(0, j));
            assert(olds.subrange(0, j + 1).last() == olds[j]);
            if bytes_equal(self.discovered[i].peer_id.as_slice(), peer) && self.discovered[i].multiaddr == *addr {
                self.discovered.remove(i);
                assert(self.discovered@ =~= kept + olds.subrange(j + 1, n as int));
            } else {
                assert(self.discovered@ =~= kept.push(olds[j]) + olds.subrange(j + 1, n as int));
                i = i + 1;
            }
            proof {
                j = j + 1;
            }
        }
        assert(olds.subrange(0, j) =~= olds);
        assert(self.discovered@ =~= without_address(olds, peer@, addr@));
    }

    /// A connection was established; the address it was reached at (the
    /// dialed one, or the peer's send-back address) is recorded too.
    pub fn connection_established(&mut self, peer: Vec<u8>, connection_id: u64, addr: Option<String>)
        ensures
            final(self).spec_connections().len() == old(self).spec_connections().len() + 1,
            final(self).spec_connections().drop_last() == old(self).spec_connections(),
            final(self).spec_connections().last().peer_id@ == peer@,
            final(self).spec_connections().last().connection_id == connection_id,
            addr is None ==> final(self).spec_discovered() == old(self).spec_discovered(),
            addr is Some ==> has_address(final(self).spec_discovered(), peer@, addr->Some_0@),
            final(self).spec_discovered().len() <= old(self).spec_discovered().len() + 1,
            forall|i: int|
                0 <= i < old(self).spec_discovered().len() ==> #[trigger] final(self).spec_discovered()[i]
                    == old(self).spec_discovered()[i],
    {
        let copy = crate::digest::copy_bytes(peer.as_slice());
        let ghost before = self.connections@;
        self.connections.push(Connection { peer_id: peer, connection_id });
        assert(self.connections@.drop_last() =~= before);
        if let Some(a) = addr {
            let ghost pv = copy@;
            let ghost av = a@;
            self.peer_discovered(copy, a);
            proof {
                if !has_address(self.discovered@, pv, av) {
                    assert(self.discovered@[self.discovered@.len() - 1].peer_id@ == pv);
                }
            }
        }
    }

    /// A connection closed: its row is removed.
    pub fn connection_closed(&mut self, connection_id: u64)
        ensures
            final(self).spec_connections() == without_connection(old(self).spec_connections(), connection_id),
            final(self).spec_discovered() == old(self).spec_discovered(),
    {
        let ghost olds = self.connections@;
        let ghost n = olds.len();
        let mut i: usize = 0;
        let ghost mut j: int = 0;
        while i < self.connections.len()
            invariant
                0 <= j <= n == olds.len(),
                i <= self.connections@.len(),
                self.discovered@ == old(self).spec_discovered(),
                self.connections@ == without_connection(olds.subrange(0, j), connection_id) + olds.subrange(j, n as int),
                i == without_connection(olds.subrange(0, j), connection_id).len(),
            decreases self.connections@.len() - i,
        {
            let ghost kept = without_connection(olds.subrange(0, j), connection_id);
            assert(self.connections@[i as int] == olds[j]);
            assert(olds.subrange(0, j + 1).drop_last() =~= olds.subrange(0, j));
            assert(olds.subrange(0, j + 1).last() == olds[j]);
            if self.connections[i].connection_id == connection_id {
                self.connections.remove(i);
                assert(self.connections@ =~= kept + olds.subrange(j + 1, n as int));
            } else {
                assert(self.connections@ =~= kept.push(olds[j]) + olds.subrange(j + 1, n as int));
                i = i + 1;
            }
            proof {
                j = j + 1;
            }
        }
        assert(olds.subrange(0, j) =~= olds);
        assert(self.connections@ =~= without_connection(olds, connection_id));
    }

    /// The addresses at which `peer` was seen, oldest first.
    pub fn known_peer_addresses(&self, peer: &[u8]) -> (r: Vec<String>)
        ensures
            r@.map_values(|a: String| a@) == addresses_of(self.spec_discovered(), peer@),
    {
        let mut r: Vec<String> = Vec::new();
        let mut i: usize = 0;
        while i < self.discovered.len()
            invariant
                i <= self.discovered@.len(),
                r@.map_values(|a: String| a@) == addresses_of(self.discovered@.subrange(0, i as int), peer@),
            decreases self.discovered.len() - i,
        {
            let ghost before = r@;
            let ghost p = self.discovered@.subrange(0, i + 1);
            assert(p.drop_last() =~= self.discovered@.subrange(0, i as int));
            assert(p.last() == self.discovered@[i as int]);
            if bytes_equal(self.discovered[i].peer_id.as_slice(), peer) {
                r.push(self.discovered[i].multiaddr.clone());
                assert(r@.map_values(|a: String| a@) =~= before.map_values(|a: String| a@).push(
                    self.discovered@[i as int].multiaddr@,
                ));
            }
            i = i + 1;
        }
        assert(self.discovered@.subrange(0, self.discovered@.len() as int) =~= self.discovered@);
        r
    }
}

} // verus!
