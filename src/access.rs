//! Authorization model: which peer may do what below which folder.
use vstd::prelude::*;
use crate::text::chars_of;

verus! {

/// The path may be found (listed as a child of a visible folder).
pub const FLAG_SEARCH: u8 = 1;
/// The file's contents may be read.
pub const FLAG_READ: u8 = 2;
/// The file's contents may be written.
pub const FLAG_WRITE: u8 = 4;

/// Mask needed to list a directory or read a file.
pub const ACCESS_READ: u8 = 3;
/// Mask needed to write a file.
pub const ACCESS_WRITE: u8 = 7;

/// Every bit of `mask` is set in `flags`.
pub open spec fn mask_within(mask: u8, flags: u8) -> bool {
    mask & flags == mask
}

/// `path` is `base` itself or lies below it, comparing whole components:
/// `/a/bb` is not below `/a/b`, everything absolute is below `/`.
pub open spec fn path_within(base: Seq<char>, path: Seq<char>) -> bool {
    path == base || (base.len() < path.len() && path.subrange(0, base.len() as int) == base && (
    path[base.len() as int] == '/' || (base.len() > 0 && base.last() == '/')))
}

/// `base` joined with one more component `child`.
pub open spec fn child_path(base: Seq<char>, child: Seq<char>) -> Seq<char> {
    if base.len() > 0 && base.last() == '/' {
        base + child
    } else {
        base + seq!['/'] + child
    }
}

#[derive(Debug)]
pub enum AccessError {
    /// A folder rule that grants read or write must grant search as well.
    MissingSearch,
    /// Flags outside search, read and write.
    UnknownFlags,
}

/// A folder rule: a canonical base path and the flags granted below it.
pub struct FolderRule {
    path: String,
    flags: u8,
}

/// Mathematical form of a permission.
pub enum PermissionView {
    Owner,
    Folder { path: Seq<char>, flags: u8 },
}

impl FolderRule {
    /// A stored rule grants search and no unknown flag.
    pub open spec fn wf(&self) -> bool {
        self.spec_flags() & FLAG_SEARCH == FLAG_SEARCH && self.spec_flags() & 7 == self.spec_flags()
    }

    pub closed spec fn spec_path(&self) -> Seq<char> {
        self.path@
    }

    pub closed spec fn spec_flags(&self) -> u8 {
        self.flags
    }

    /// Builds a rule; read or write without search is rejected.
    pub fn new(path: String, flags: u8) -> (r: Result<FolderRule, AccessError>)
        ensures
            flags & 7 != flags ==> r is Err && r->Err_0 is UnknownFlags,
            flags & 7 == flags && flags & FLAG_SEARCH != FLAG_SEARCH ==> r is Err
                && r->Err_0 is MissingSearch,
            flags & 7 == flags && flags & FLAG_SEARCH == FLAG_SEARCH ==> r is Ok
                && r->Ok_0.wf() && r->Ok_0.spec_path() == path@ && r->Ok_0.spec_flags() == flags,
    {
        if flags & 7 != flags {
            Err(AccessError::UnknownFlags)
        } else if flags & FLAG_SEARCH != FLAG_SEARCH {
            Err(AccessError::MissingSearch)
        } else {
            Ok(FolderRule { path, flags })
        }
    }

    pub fn path(&self) -> (r: &String)
        ensures
            r@ == self.spec_path(),
    {
        &self.path
    }

    pub fn flags(&self) -> (r: u8)
        ensures
            r == self.spec_flags(),
    {
        self.flags
    }

    pub fn can_search(&self) -> (r: bool)
        ensures
            r == (self.spec_flags() & FLAG_SEARCH == FLAG_SEARCH),
    {
        self.flags & FLAG_SEARCH == FLAG_SEARCH
    }

    pub fn can_read(&self) -> (r: bool)
        ensures
            r == (self.spec_flags() & FLAG_READ == FLAG_READ),
    {
        self.flags & FLAG_READ == FLAG_READ
    }

    pub fn can_write(&self) -> (r: bool)
        ensures
            r == (self.spec_flags() & FLAG_WRITE == FLAG_WRITE),
    {
        self.flags & FLAG_WRITE == FLAG_WRITE
    }

    pub fn duplicate(&self) -> (r: FolderRule)
        ensures
            r.spec_path() == self.spec_path(),
            r.spec_flags() == self.spec_flags(),
    {
        FolderRule { path: self.path.clone(), flags: self.flags }
    }
}

/// A permission granted to a peer.
pub enum Permission {
    Owner,
    Folder(FolderRule),
}

impl View for Permission {
    type V = PermissionView;

    open spec fn view(&self) -> PermissionView {
        match self {
            Permission::Owner => PermissionView::Owner,
            Permission::Folder(rule) => PermissionView::Folder {
                path: rule.spec_path(),
                flags: rule.spec_flags(),
            },
        }
    }
}

impl Permission {
    pub open spec fn wf(&self) -> bool {
        match self {
            Permission::Owner => true,
            Permission::Folder(rule) => rule.wf(),
        }
    }

    pub fn duplicate(&self) -> (r: Permission)
        ensures
            r@ == self@,
            r.wf() == self.wf(),
    {
        match self {
            Permission::Owner => Permission::Owner,
            Permission::Folder(rule) => Permission::Folder(rule.duplicate()),
        }
    }
}

/// The permission `p` lets its holder reach `path` with every flag of `mask`.
pub open spec fn grants(p: PermissionView, path: Seq<char>, mask: u8) -> bool {
    match p {
        PermissionView::Owner => true,
        PermissionView::Folder { path: base, flags } => path_within(base, path) && mask_within(
            mask,
            flags,
        ),
    }
}

/// Some permission of `perms` grants `mask` on `path`.
pub open spec fn access_allowed(perms: Seq<Permission>, path: Seq<char>, mask: u8) -> bool {
    exists|i: int| 0 <= i < perms.len() && grants(#[trigger] perms[i]@, path, mask)
}

/// Compares `path` against the base of a folder rule, component-wise.
pub fn is_within(base: &Vec<char>, path: &Vec<char>) -> (r: bool)
    ensures
        r == path_within(base@, path@),
{
    let n = base.len();
    if path.len() < n {
        return false;
    }
    let mut i: usize = 0;
    while i < n
        invariant
            n == base@.len() <= path@.len(),
            i <= n,
            forall|j: int| 0 <= j < i ==> base@[j] == path@[j],
        decreases n - i,
    {
        if base[i] != path[i] {
            assert(path@.subrange(0, n as int)[i as int] != base@[i as int]);
            return false;
        }
        i = i + 1;
    }
    assert(path@.subrange(0, n as int) =~= base@);
    if path.len() == n {
        assert(path@ =~= base@);
        true
    } else {
        path[n] == '/' || (n > 0 && base[n - 1] == '/')
    }
}

/// Whether one permission grants `mask` on the canonical path `path`.
pub fn permission_grants(p: &Permission, path: &Vec<char>, mask: u8) -> (r: bool)
    ensures
        r == grants(p@, path@, mask),
{
    match p {
        Permission::Owner => true,
        Permission::Folder(rule) => {
            let base = chars_of(rule.path.as_str());
            (mask & rule.flags) == mask && is_within(&base, path)
        },
    }
}

/// Decides a request for `mask` on the canonical (symlink-resolved) path
/// `path` by a peer holding `perms`. An empty set denies everything.
pub fn has_access(perms: &Vec<Permission>, path: &str, mask: u8) -> (r: bool)
    ensures
        r == access_allowed(perms@, path@, mask),
{
    let p = chars_of(path);
    let mut i: usize = 0;
    while i < perms.len()
        invariant
            i <= perms@.len(),
            p@ == path@,
            forall|j: int| 0 <= j < i ==> !grants(#[trigger] perms@[j]@, path@, mask),
        decreases perms.len() - i,
    {
        if permission_grants(&perms[i], &p, mask) {
            return true;
        }
        i = i + 1;
    }
    false
}

/// Soundness: an allowed request is covered by one granted permission whose
/// flags hold every bit of the mask (or by an owner permission).
pub proof fn lemma_access_sound(perms: Seq<Permission>, path: Seq<char>, mask: u8)
    requires
        access_allowed(perms, path, mask),
    ensures
        exists|i: int|
            0 <= i < perms.len() && (#[trigger] perms[i]@ is Owner || (perms[i]@ is Folder
                && path_within(perms[i]@->Folder_path, path) && mask_within(
                mask,
                perms[i]@->Folder_flags,
            ))),
{
    let i = choose|i: int| 0 <= i < perms.len() && grants(#[trigger] perms[i]@, path, mask);
    assert(perms[i]@ is Owner || (perms[i]@ is Folder && path_within(perms[i]@->Folder_path, path)
        && mask_within(mask, perms[i]@->Folder_flags)));
}

/// Subtree closure: a folder rule that grants a mask on a child of its base
/// grants the same mask on the base itself.
pub proof fn lemma_subtree_closure(base: Seq<char>, flags: u8, child: Seq<char>, mask: u8)
    requires
        grants(PermissionView::Folder { path: base, flags }, child_path(base, child), mask),
    ensures
        grants(PermissionView::Folder { path: base, flags }, base, mask),
{
}

/// Closure over a whole permission set: whoever may reach `base/child`
/// through a rule on `base` may reach `base`.
pub proof fn lemma_subtree_closure_in_set(
    perms: Seq<Permission>,
    k: int,
    child: Seq<char>,
    mask: u8,
)
    requires
        0 <= k < perms.len(),
        perms[k]@ is Folder,
        grants(perms[k]@, child_path(perms[k]@->Folder_path, child), mask),
    ensures
        access_allowed(perms, perms[k]@->Folder_path, mask),
{
    assert(grants(perms[k]@, perms[k]@->Folder_path, mask));
}

/// The verdict is a function of the canonical path: two requests whose
/// paths resolve to the same canonical path are decided alike.
pub proof fn lemma_verdict_by_canonical_path(
    perms: Seq<Permission>,
    canonical_a: Seq<char>,
    canonical_b: Seq<char>,
    mask: u8,
)
    requires
        canonical_a == canonical_b,
    ensures
        access_allowed(perms, canonical_a, mask) == access_allowed(perms, canonical_b, mask),
{
}

/// Wire form of a permission: no path for the owner rule, else the folder
/// base and its three flags.
pub struct PermissionGrant {
    pub path: Option<String>,
    pub search: bool,
    pub read: bool,
    pub write: bool,
}

pub open spec fn flags_of(search: bool, read: bool, write: bool) -> u8 {
    (if search { FLAG_SEARCH } else { 0u8 }) | (if read { FLAG_READ } else { 0u8 }) | (if write {
        FLAG_WRITE
    } else {
        0u8
    })
}

/// Mathematical form of a wire grant.
pub struct GrantView {
    pub path: Option<Seq<char>>,
    pub search: bool,
    pub read: bool,
    pub write: bool,
}

impl View for PermissionGrant {
    type V = GrantView;

    open spec fn view(&self) -> GrantView {
        GrantView {
            path: match self.path {
                Some(p) => Some(p@),
                None => None,
            },
            search: self.search,
            read: self.read,
            write: self.write,
        }
    }
}

/// Wire form of a permission.
pub open spec fn encoded(p: PermissionView) -> GrantView {
    match p {
        PermissionView::Owner => GrantView { path: None, search: true, read: true, write: true },
        PermissionView::Folder { path, flags } => GrantView {
            path: Some(path),
            search: flags & FLAG_SEARCH == FLAG_SEARCH,
            read: flags & FLAG_READ == FLAG_READ,
            write: flags & FLAG_WRITE == FLAG_WRITE,
        },
    }
}

/// Permission that a wire grant stands for; a folder grant without search
/// stands for none.
pub open spec fn decoded(g: GrantView) -> Option<PermissionView> {
    match g.path {
        None => Some(PermissionView::Owner),
        Some(path) => if g.search {
            Some(PermissionView::Folder { path, flags: flags_of(g.search, g.read, g.write) })
        } else {
            None
        },
    }
}

/// Encodes a permission in its wire form.
pub fn grant_from_permission(p: &Permission) -> (r: PermissionGrant)
    ensures
        r@ == encoded(p@),
{
    match p {
        Permission::Owner => PermissionGrant { path: None, search: true, read: true, write: true },
        Permission::Folder(rule) => {
            let f = rule.flags;
            PermissionGrant {
                path: Some(rule.path.clone()),
                search: f & FLAG_SEARCH == FLAG_SEARCH,
                read: f & FLAG_READ == FLAG_READ,
                write: f & FLAG_WRITE == FLAG_WRITE,
            }
        },
    }
}

/// Decodes a wire grant; a folder grant without search is dropped.
pub fn permission_from_grant(g: &PermissionGrant) -> (r: Option<Permission>)
    ensures
        r is Some <==> decoded(g@) is Some,
        r is Some ==> r->Some_0.wf() && r->Some_0@ == decoded(g@)->Some_0,
{
    match &g.path {
        None => Some(Permission::Owner),
        Some(path) => {
            if !g.search {
                return None;
            }
            let rb: u8 = if g.read { FLAG_READ } else { 0u8 };
            let wb: u8 = if g.write { FLAG_WRITE } else { 0u8 };
            let flags: u8 = FLAG_SEARCH | rb | wb;
            assert((1u8 | rb | wb) & 7u8 == (1u8 | rb | wb) && (1u8 | rb | wb) & 1u8 == 1u8)
                by (bit_vector)
                requires
                    rb == 0u8 || rb == 2u8,
                    wb == 0u8 || wb == 4u8,
            ;
            match FolderRule::new(path.clone(), flags) {
                Ok(rule) => Some(Permission::Folder(rule)),
                Err(_) => None,
            }
        },
    }
}

/// Encoding a well-formed permission in its wire form and decoding it again
/// gives the same permission.
pub proof fn lemma_grant_round_trip(p: Permission)
    requires
        p.wf(),
    ensures
        decoded(encoded(p@)) == Some(p@),
{
    if let Permission::Folder(rule) = p {
        let f = rule.spec_flags();
        assert(f & 7u8 == f && f & 1u8 == 1u8 ==> f & 1u8 == 1u8 && (if f & 1u8 == 1u8 { 1u8 } else {
            0u8
        }) | (if f & 2u8 == 2u8 { 2u8 } else { 0u8 }) | (if f & 4u8 == 4u8 { 4u8 } else { 0u8 })
            == f) by (bit_vector);
    }
}

} // verus!
