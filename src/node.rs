//! Node state for authorization: the folders shared by the operator, what
//! this node granted each remote peer, and what each peer granted it.
use vstd::prelude::*;
use crate::access::{
    access_allowed, decoded, grants, has_access, permission_from_grant, Permission,
    PermissionGrant, PermissionView, ACCESS_READ, ACCESS_WRITE,
};
use vstd::pervasive::VecAdditionalExecFns;
use vstd::string::StringExecFns;
use crate::digest::{bytes_equal, copy_bytes};

verus! {

/// Views of a list of permissions.
pub open spec fn views(s: Seq<Permission>) -> Seq<PermissionView> {
    s.map_values(|p: Permission| p@)
}

/// Copies a list of permissions.
pub fn copy_permissions(v: &Vec<Permission>) -> (r: Vec<Permission>)
    ensures
        views(r@) == views(v@),
        forall|i: int| 0 <= i < v@.len() ==> (#[trigger] v@[i]).wf() ==> r@[i].wf(),
        r@.len() == v@.len(),
{
    let mut r: Vec<Permission> = Vec::new();
    let mut i: usize = 0;
    while i < v.len()
        invariant
            i <= v@.len(),
            r@.len() == i,
            forall|j: int| 0 <= j < i ==> (#[trigger] r@[j])@ == v@[j]@ && (v@[j].wf() ==> r@[j].wf()),
        decreases v.len() - i,
    {
        r.push(v[i].duplicate());
        i = i + 1;
    }
    assert(views(r@) =~= views(v@));
    r
}

/// The permissions held by one peer.
pub struct PeerGrants {
    pub peer: Vec<u8>,
    pub permissions: Vec<Permission>,
}

/// Permissions that `table` records for `peer` (the first row naming it;
/// none when no row does).
pub open spec fn recorded(table: Seq<PeerGrants>, peer: Seq<u8>) -> Seq<PermissionView>
    decreases table.len(),
{
    if table.len() == 0 {
        Seq::empty()
    } else if table[0].peer@ == peer {
        views(table[0].permissions@)
    } else {
        recorded(table.drop_first(), peer)
    }
}

/// Index of the first row of `table` for `peer`.
fn find_peer(table: &Vec<PeerGrants>, peer: &[u8]) -> (r: Option<usize>)
    ensures
        r is None ==> recorded(table@, peer@) == Seq::<PermissionView>::empty(),
        r is None ==> forall|k: int| 0 <= k < table@.len() ==> (#[trigger] table@[k]).peer@ != peer@,
        r is Some ==> r->Some_0 < table@.len() && table@[r->Some_0 as int].peer@ == peer@
            && recorded(table@, peer@) == views(table@[r->Some_0 as int].permissions@)
            && forall|k: int| 0 <= k < r->Some_0 ==> (#[trigger] table@[k]).peer@ != peer@,
{
    let n = table.len();
    let mut i: usize = 0;
    assert(table@.subrange(0, n as int) =~= table@);
    while i < n
        invariant
            i <= n == table@.len(),
            recorded(table@, peer@) == recorded(table@.subrange(i as int, n as int), peer@),
            forall|k: int| 0 <= k < i ==> (#[trigger] table@[k]).peer@ != peer@,
        decreases n - i,
    {
        let ghost rest = table@.subrange(i as int, n as int);
        assert(rest[0] == table@[i as int]);
        if bytes_equal(table[i].peer.as_slice(), peer) {
            return Some(i);
        }
        assert(rest.drop_first() =~= table@.subrange(i + 1, n as int));
        i = i + 1;
    }
    None
}

/// Replacing the row at `k`, the first for its peer, changes what is
/// recorded for that peer only.
proof fn lemma_recorded_update(table: Seq<PeerGrants>, k: int, row: PeerGrants, q: Seq<u8>)
    requires
        0 <= k < table.len(),
        row.peer@ == table[k].peer@,
        forall|j: int| 0 <= j < k ==> (#[trigger] table[j]).peer@ != table[k].peer@,
    ensures
        q == row.peer@ ==> recorded(table.update(k, row), q) == views(row.permissions@),
        q != row.peer@ ==> recorded(table.update(k, row), q) == recorded(table, q),
    decreases k,
{
    let t = table.update(k, row);
    if k == 0 {
        assert(t[0] == row);
        assert(t.drop_first() =~= table.drop_first());
    } else {
        assert(t[0] == table[0]);
        assert(t.drop_first() =~= table.drop_first().update(k - 1, row));
        assert forall|j: int| 0 <= j < k - 1 implies (#[trigger] table.drop_first()[j]).peer@
            != table.drop_first()[k - 1].peer@ by {
            assert(table.drop_first()[j] == table[j + 1]);
        }
        lemma_recorded_update(table.drop_first(), k - 1, row, q);
    }
}

/// Appending a row for a peer that has none records its permissions and
/// changes nothing for the other peers.
proof fn lemma_recorded_push(table: Seq<PeerGrants>, row: PeerGrants, q: Seq<u8>)
    requires
        forall|j: int| 0 <= j < table.len() ==> (#[trigger] table[j]).peer@ != row.peer@,
    ensures
        q == row.peer@ ==> recorded(table.push(row), q) == views(row.permissions@),
        q != row.peer@ ==> recorded(table.push(row), q) == recorded(table, q),
    decreases table.len(),
{
    let t = table.push(row);
    if table.len() == 0 {
        assert(t[0] == row);
        assert(t.drop_first() =~= Seq::<PeerGrants>::empty());
        assert(recorded(t.drop_first(), q) == Seq::<PermissionView>::empty());
    } else {
        assert(t[0] == table[0]);
        assert(t.drop_first() =~= table.drop_first().push(row));
        assert forall|j: int| 0 <= j < table.drop_first().len() implies (#[trigger] table.drop_first()[j]).peer@
            != row.peer@ by {
            assert(table.drop_first()[j] == table[j + 1]);
        }
        lemma_recorded_push(table.drop_first(), row, q);
    }
}

/// Why a grant request was refused.
#[derive(Debug, PartialEq, Eq, Structural)]
pub enum GrantError {
    /// No grant of the request decodes to a permission.
    NothingToGrant,
}

/// Permissions per peer, in one direction.
pub struct PermissionTable {
    rows: Vec<PeerGrants>,
}

impl PermissionTable {
    pub closed spec fn spec_rows(&self) -> Seq<PeerGrants> {
        self.rows@
    }

    /// Permissions recorded for `peer`.
    pub open spec fn spec_for(&self, peer: Seq<u8>) -> Seq<PermissionView> {
        recorded(self.spec_rows(), peer)
    }

    pub fn new() -> (r: PermissionTable)
        ensures
            forall|p: Seq<u8>| #[trigger] r.spec_for(p) == Seq::<PermissionView>::empty(),
    {
        PermissionTable { rows: Vec::new() }
    }

    /// A copy of the permissions recorded for `peer`.
    pub fn permissions_for(&self, peer: &[u8]) -> (r: Vec<Permission>)
        ensures
            views(r@) == self.spec_for(peer@),
    {
        match find_peer(&self.rows, peer) {
            Some(k) => copy_permissions(&self.rows[k].permissions),
            None => {
                let r: Vec<Permission> = Vec::new();
                assert(views(r@) =~= Seq::<PermissionView>::empty());
                r
            },
        }
    }

    /// Replaces every permission recorded for `peer` with `permissions`.
    pub fn set(&mut self, peer: &[u8], permissions: Vec<Permission>)
        ensures
            final(self).spec_for(peer@) == views(permissions@),
            forall|q: Seq<u8>| q != peer@ ==> #[trigger] final(self).spec_for(q) == old(self).spec_for(q),
    {
        let ghost perms = permissions@;
        let row = PeerGrants { peer: copy_bytes(peer), permissions };
        match find_peer(&self.rows, peer) {
            Some(k) => {
                let ghost before = self.rows@;
                self.rows.set(k, row);
                proof {
                    assert forall|q: Seq<u8>| true implies (q == peer@ ==> recorded(self.rows@, q) == views(perms))
                        && (q != peer@ ==> recorded(self.rows@, q) == recorded(before, q)) by {
                        lemma_recorded_update(before, k as int, row, q);
                    }
                }
            },
            None => {
                let ghost before = self.rows@;
                self.rows.push(row);
                proof {
                    assert forall|q: Seq<u8>| true implies (q == peer@ ==> recorded(self.rows@, q) == views(perms))
                        && (q != peer@ ==> recorded(self.rows@, q) == recorded(before, q)) by {
                        lemma_recorded_push(before, row, q);
                    }
                }
            },
        }
    }

    /// Decides an operation needing `mask` on the canonical path `path` by
    /// `peer`, from what is recorded for it.
    pub fn allows(&self, peer: &[u8], path: &str, mask: u8) -> (r: bool)
        ensures
            r == exists|i: int|
                0 <= i < self.spec_for(peer@).len() && grants(
                    #[trigger] self.spec_for(peer@)[i],
                    path@,
                    mask,
                ),
    {
        let perms = self.permissions_for(peer);
        let r = has_access(&perms, path, mask);
        proof {
            if r {
                let i = choose|i: int| 0 <= i < perms@.len() && grants(#[trigger] perms@[i]@, path@, mask);
                assert(views(perms@)[i] == perms@[i]@);
            } else {
                assert forall|i: int| 0 <= i < views(perms@).len() implies !grants(
                    #[trigger] views(perms@)[i],
                    path@,
                    mask,
                ) by {
                    assert(views(perms@)[i] == perms@[i]@);
                }
            }
        }
        r
    }
}

/// Permissions that a grant request stands for: each grant that decodes, in
/// order.
pub open spec fn decoded_all(grants: Seq<PermissionGrant>) -> Seq<PermissionView>
    decreases grants.len(),
{
    if grants.len() == 0 {
        Seq::empty()
    } else {
        decoded_all(grants.drop_last()) + match decoded(grants.last()@) {
            Some(p) => seq![p],
            None => Seq::empty(),
        }
    }
}

/// Decodes the grants of a request, dropping the ones that stand for no
/// permission.
pub fn permissions_from_grants(grants: &Vec<PermissionGrant>) -> (r: Vec<Permission>)
    ensures
        views(r@) == decoded_all(grants@),
        forall|i: int| 0 <= i < r@.len() ==> (#[trigger] r@[i]).wf(),
{
    let mut r: Vec<Permission> = Vec::new();
    let mut i: usize = 0;
    while i < grants.len()
        invariant
            i <= grants@.len(),
            views(r@) == decoded_all(grants@.subrange(0, i as int)),
            forall|j: int| 0 <= j < r@.len() ==> (#[trigger] r@[j]).wf(),
        decreases grants.len() - i,
    {
        let ghost before = r@;
        let ghost p = grants@.subrange(0, i + 1);
        assert(p.drop_last() =~= grants@.subrange(0, i as int));
        assert(p.last() == grants@[i as int]);
        match permission_from_grant(&grants[i]) {
            Some(perm) => {
                r.push(perm);
                assert(views(r@) =~= views(before) + seq![r@.last()@]);
            },
            None => {},
        }
        assert(views(r@) =~= decoded_all(p));
        i = i + 1;
    }
    assert(grants@.subrange(0, grants@.len() as int) =~= grants@);
    r
}

/// The authorization state of a node.
pub struct AccessState {
    me: Vec<u8>,
    shared_folders: Vec<Permission>,
    granted_by_me: PermissionTable,
    granted_to_me: PermissionTable,
}

/// Filesystem operations that peers request, by the mask they need.
#[derive(Debug, Clone, Copy, PartialEq, Eq, Structural)]
pub enum FsOperation {
    ListDir,
    StatFile,
    ReadFile,
    GetThumbnail,
    WriteFile,
}

/// Mask an operation needs: search and read, and write for a write.
pub open spec fn mask_for(op: FsOperation) -> u8 {
    match op {
        FsOperation::WriteFile => ACCESS_WRITE,
        _ => ACCESS_READ,
    }
}

pub fn required_mask(op: FsOperation) -> (r: u8)
    ensures
        r == mask_for(op),
{
    match op {
        FsOperation::WriteFile => ACCESS_WRITE,
        _ => ACCESS_READ,
    }
}

pub const ACCESS_DENIED: &'static str = "Access denied";

pub const NOTHING_TO_GRANT: &'static str = "No permissions to grant";

/// Answer to a GrantAccess request.
pub enum GrantReply {
    /// The grants were applied; the reply repeats them.
    AccessGranted { username: String, permissions: Vec<PermissionGrant> },
    /// The request was refused.
    Error(String),
}

impl AccessState {
    pub closed spec fn spec_me(&self) -> Seq<u8> {
        self.me@
    }

    pub closed spec fn spec_shared(&self) -> Seq<Permission> {
        self.shared_folders@
    }

    pub closed spec fn spec_granted_by_me(&self) -> PermissionTable {
        self.granted_by_me
    }

    pub closed spec fn spec_granted_to_me(&self) -> PermissionTable {
        self.granted_to_me
    }

    /// A node `me` with no shared folder and no grants.
    pub fn new(me: Vec<u8>) -> (r: AccessState)
        ensures
            r.spec_me() == me@,
            r.spec_shared().len() == 0,
            forall|p: Seq<u8>| #[trigger] r.spec_granted_by_me().spec_for(p) == Seq::<PermissionView>::empty(),
            forall|p: Seq<u8>| #[trigger] r.spec_granted_to_me().spec_for(p) == Seq::<PermissionView>::empty(),
    {
        AccessState {
            me,
            shared_folders: Vec::new(),
            granted_by_me: PermissionTable::new(),
            granted_to_me: PermissionTable::new(),
        }
    }

    /// Whether `peer` is this node.
    pub fn is_me(&self, peer: &[u8]) -> (r: bool)
        ensures
            r == (peer@ == self.spec_me()),
    {
        bytes_equal(self.me.as_slice(), peer)
    }

    /// Registers a folder rule of the operator; it serves the local
    /// identity only.
    pub fn share_folder(&mut self, rule: Permission)
        ensures
            final(self).spec_shared() == old(self).spec_shared().push(rule),
            final(self).spec_me() == old(self).spec_me(),
            final(self).spec_granted_by_me() == old(self).spec_granted_by_me(),
            final(self).spec_granted_to_me() == old(self).spec_granted_to_me(),
    {
        self.shared_folders.push(rule);
    }

    /// What this node granted `peer`.
    pub fn permissions_granted_to_peer(&self, peer: &[u8]) -> (r: Vec<Permission>)
        ensures
            views(r@) == self.spec_granted_by_me().spec_for(peer@),
    {
        self.granted_by_me.permissions_for(peer)
    }

    /// What `peer` granted this node.
    pub fn permissions_granted_by_peer(&self, peer: &[u8]) -> (r: Vec<Permission>)
        ensures
            views(r@) == self.spec_granted_to_me().spec_for(peer@),
    {
        self.granted_to_me.permissions_for(peer)
    }

    /// Replaces what this node grants `peer`.
    pub fn set_peer_permissions(&mut self, peer: &[u8], permissions: Vec<Permission>)
        ensures
            final(self).spec_granted_by_me().spec_for(peer@) == views(permissions@),
            forall|q: Seq<u8>| q != peer@ ==> #[trigger] final(self).spec_granted_by_me().spec_for(q)
                == old(self).spec_granted_by_me().spec_for(q),
            final(self).spec_granted_to_me() == old(self).spec_granted_to_me(),
            final(self).spec_me() == old(self).spec_me(),
            final(self).spec_shared() == old(self).spec_shared(),
    {
        self.granted_by_me.set(peer, permissions);
    }

    /// Records what `peer` granted this node, from its AccessGranted reply.
    pub fn record_granted_by_peer(&mut self, peer: &[u8], grants: &Vec<PermissionGrant>)
        ensures
            final(self).spec_granted_to_me().spec_for(peer@) == decoded_all(grants@),
            forall|q: Seq<u8>| q != peer@ ==> #[trigger] final(self).spec_granted_to_me().spec_for(q)
                == old(self).spec_granted_to_me().spec_for(q),
            final(self).spec_granted_by_me() == old(self).spec_granted_by_me(),
            final(self).spec_me() == old(self).spec_me(),
    {
        let perms = permissions_from_grants(grants);
        self.granted_to_me.set(peer, perms);
    }

    /// Serves a GrantAccess request from `peer`: the decoded grants replace
    /// what `peer` held, or are appended to it when `merge` is set. A
    /// request in which no grant decodes is refused and changes nothing.
    pub fn grant_access(&mut self, peer: &[u8], grants: &Vec<PermissionGrant>, merge: bool) -> (r:
        Result<(), GrantError>)
        ensures
            decoded_all(grants@).len() == 0 ==> r == Err::<(), GrantError>(GrantError::NothingToGrant)
                && final(self).spec_granted_by_me() == old(self).spec_granted_by_me(),
            decoded_all(grants@).len() > 0 ==> r is Ok && final(self).spec_granted_by_me().spec_for(
                peer@,
            ) == (if merge {
                old(self).spec_granted_by_me().spec_for(peer@) + decoded_all(grants@)
            } else {
                decoded_all(grants@)
            }),
            forall|q: Seq<u8>| q != peer@ ==> #[trigger] final(self).spec_granted_by_me().spec_for(q)
                == old(self).spec_granted_by_me().spec_for(q),
            final(self).spec_granted_to_me() == old(self).spec_granted_to_me(),
            final(self).spec_me() == old(self).spec_me(),
            final(self).spec_shared() == old(self).spec_shared(),
    {
        let mapped = permissions_from_grants(grants);
        if mapped.len() == 0 {
            return Err(GrantError::NothingToGrant);
        }
        if merge {
            let mut all = self.granted_by_me.permissions_for(peer);
            let ghost first = all@;
            let mut extra = mapped;
            let ghost second = extra@;
            all.append(&mut extra);
            assert(views(all@) =~= views(first) + views(second));
            self.granted_by_me.set(peer, all);
        } else {
            self.granted_by_me.set(peer, mapped);
        }
        Ok(())
    }

    /// Decides a filesystem operation of `peer` on the canonical path
    /// `path`: the local identity goes by the shared folders, a remote peer
    /// by what this node granted it.
    pub fn has_fs_access(&self, peer: &[u8], path: &str, op: FsOperation) -> (r: bool)
        ensures
            peer@ == self.spec_me() ==> r == access_allowed(self.spec_shared(), path@, mask_for(op)),
            peer@ != self.spec_me() ==> r == exists|i: int|
                0 <= i < self.spec_granted_by_me().spec_for(peer@).len() && grants(
                    #[trigger] self.spec_granted_by_me().spec_for(peer@)[i],
                    path@,
                    mask_for(op),
                ),
    {
        let mask = required_mask(op);
        if self.is_me(peer) {
            has_access(&self.shared_folders, path, mask)
        } else {
            assert(self.spec_granted_by_me() == self.granted_by_me);
            self.granted_by_me.allows(peer, path, mask)
        }
    }

    /// The answer to a filesystem request refused by authorization, or none
    /// when it may go on.
    pub fn check_fs_request(&self, peer: &[u8], path: &str, op: FsOperation) -> (r: Option<String>)
        ensures
            r is None <==> (peer@ == self.spec_me() && access_allowed(self.spec_shared(), path@, mask_for(op)))
                || (peer@ != self.spec_me() && exists|i: int|
                0 <= i < self.spec_granted_by_me().spec_for(peer@).len() && grants(
                    #[trigger] self.spec_granted_by_me().spec_for(peer@)[i],
                    path@,
                    mask_for(op),
                )),
            r is Some ==> r->Some_0@ == ACCESS_DENIED@,
    {
        if self.has_fs_access(peer, path, op) {
            None
        } else {
            Some(String::from_str(ACCESS_DENIED))
        }
    }

    /// Serves a GrantAccess request from `peer` and builds the reply: the
    /// same user and grant list when applied, an error when no grant
    /// decodes.
    pub fn answer_grant_request(
        &mut self,
        peer: &[u8],
        username: String,
        grants: Vec<PermissionGrant>,
        merge: bool,
    ) -> (r: GrantReply)
        ensures
            decoded_all(grants@).len() == 0 ==> r is Error && r->Error_0@ == NOTHING_TO_GRANT@
                && final(self).spec_granted_by_me() == old(self).spec_granted_by_me(),
            decoded_all(grants@).len() > 0 ==> r is AccessGranted && r->AccessGranted_username
                == username && r->AccessGranted_permissions@ == grants@
                && final(self).spec_granted_by_me().spec_for(peer@) == (if merge {
                old(self).spec_granted_by_me().spec_for(peer@) + decoded_all(grants@)
            } else {
                decoded_all(grants@)
            }),
            forall|q: Seq<u8>| q != peer@ ==> #[trigger] final(self).spec_granted_by_me().spec_for(q)
                == old(self).spec_granted_by_me().spec_for(q),
            final(self).spec_granted_to_me() == old(self).spec_granted_to_me(),
    {
        match self.grant_access(peer, &grants, merge) {
            Ok(()) => GrantReply::AccessGranted { username, permissions: grants },
            Err(_) => GrantReply::Error(String::from_str(NOTHING_TO_GRANT)),
        }
    }

    /// Verdict on a filesystem request of `peer` whose path resolved to
    /// `canonical` (or failed to resolve, with its cause): the error text to
    /// answer with, or none when the operation may go on.
    pub fn fs_request_verdict(&self, peer: &[u8], op: FsOperation, canonical: Result<&str, &str>) -> (r:
        Option<String>)
        ensures
            canonical is Err ==> r is Some && r->Some_0@ == resolve_failure_text(op) + canonical->Err_0@,
            canonical is Ok ==> (r is None <==> (peer@ == self.spec_me() && access_allowed(
                self.spec_shared(),
                canonical->Ok_0@,
                mask_for(op),
            )) || (peer@ != self.spec_me() && exists|i: int|
                0 <= i < self.spec_granted_by_me().spec_for(peer@).len() && grants(
                    #[trigger] self.spec_granted_by_me().spec_for(peer@)[i],
                    canonical->Ok_0@,
                    mask_for(op),
                ))),
            canonical is Ok && r is Some ==> r->Some_0@ == ACCESS_DENIED@,
    {
        match canonical {
            Err(cause) => {
                let prefix = match op {
                    FsOperation::ListDir => String::from_str("Failed to access directory: "),
                    _ => String::from_str("Failed to access file: "),
                };
                Some(prefix.concat(cause))
            },
            Ok(path) => self.check_fs_request(peer, path, op),
        }
    }
}

/// Text that precedes the cause when a requested path does not resolve.
pub open spec fn resolve_failure_text(op: FsOperation) -> Seq<char> {
    match op {
        FsOperation::ListDir => "Failed to access directory: "@,
        _ => "Failed to access file: "@,
    }
}

} // verus!
