use puppynet::access::{
    grant_from_permission, has_access, permission_from_grant, AccessError, FolderRule, Permission,
    PermissionGrant, ACCESS_READ, ACCESS_WRITE, FLAG_READ, FLAG_SEARCH, FLAG_WRITE,
};
use puppynet::node::{AccessState, FsOperation, GrantError};

fn folder(path: &str, flags: u8) -> Permission {
    Permission::Folder(FolderRule::new(path.to_string(), flags).unwrap())
}

fn grant(path: &str, read: bool, write: bool) -> PermissionGrant {
    PermissionGrant { path: Some(path.to_string()), search: true, read, write }
}

#[test]
fn access_denied_outside_granted_folder() {
    let perms = vec![folder("/srv/pub", FLAG_READ | FLAG_SEARCH)];
    assert!(!has_access(&perms, "/srv/priv", ACCESS_READ));
    assert!(has_access(&perms, "/srv/pub", ACCESS_READ));
    assert!(has_access(&perms, "/srv/pub/docs/a.txt", ACCESS_READ));
}

#[test]
fn descendant_check_is_component_wise() {
    let perms = vec![folder("/a/b", FLAG_READ | FLAG_SEARCH)];
    assert!(!has_access(&perms, "/a/bb", ACCESS_READ));
    assert!(has_access(&perms, "/a/b/c", ACCESS_READ));
    assert!(!has_access(&perms, "/a", ACCESS_READ));
    let root = vec![folder("/", FLAG_READ | FLAG_SEARCH)];
    assert!(has_access(&root, "/anything/below", ACCESS_READ));
}

#[test]
fn empty_permission_set_denies() {
    let perms: Vec<Permission> = Vec::new();
    assert!(!has_access(&perms, "/", ACCESS_READ));
}

#[test]
fn owner_grants_everything() {
    let perms = vec![Permission::Owner];
    assert!(has_access(&perms, "/etc/passwd", ACCESS_WRITE));
}

#[test]
fn write_needs_write_flag() {
    let ro = vec![folder("/data", FLAG_READ | FLAG_SEARCH)];
    assert!(!has_access(&ro, "/data/f", ACCESS_WRITE));
    let rw = vec![folder("/data", FLAG_READ | FLAG_WRITE | FLAG_SEARCH)];
    assert!(has_access(&rw, "/data/f", ACCESS_WRITE));
}

#[test]
fn subtree_closure_example() {
    let perms = vec![folder("/base", FLAG_READ | FLAG_SEARCH)];
    assert!(has_access(&perms, "/base/child", ACCESS_READ));
    assert!(has_access(&perms, "/base", ACCESS_READ));
}

#[test]
fn folder_rule_requires_search() {
    assert!(matches!(FolderRule::new("/x".to_string(), FLAG_READ), Err(AccessError::MissingSearch)));
    assert!(matches!(FolderRule::new("/x".to_string(), 8), Err(AccessError::UnknownFlags)));
    let rule = FolderRule::new("/x".to_string(), FLAG_SEARCH | FLAG_WRITE).unwrap();
    assert!(rule.can_search() && rule.can_write() && !rule.can_read());
}

#[test]
fn permission_grant_round_trip() {
    let perms = vec![
        Permission::Owner,
        folder("/data", FLAG_READ | FLAG_SEARCH),
        folder("/w", FLAG_READ | FLAG_WRITE | FLAG_SEARCH),
        folder("/s", FLAG_SEARCH),
    ];
    for p in &perms {
        let g = grant_from_permission(p);
        let back = permission_from_grant(&g).unwrap();
        match (p, &back) {
            (Permission::Owner, Permission::Owner) => {}
            (Permission::Folder(a), Permission::Folder(b)) => {
                assert_eq!(a.path(), b.path());
                assert_eq!(a.flags(), b.flags());
            }
            _ => panic!("variant changed"),
        }
    }
    let bad = PermissionGrant { path: Some("/x".to_string()), search: false, read: true, write: false };
    assert!(permission_from_grant(&bad).is_none());
}

#[test]
fn grant_flow_replaces_permissions() {
    let node_a = vec![1u8; 20];
    let mut b = AccessState::new(vec![2u8; 20]);
    b.set_peer_permissions(&node_a, vec![Permission::Owner]);
    let request = vec![grant("/data", true, false)];
    assert_eq!(b.grant_access(&node_a, &request, false), Ok(()));
    let now = b.permissions_granted_to_peer(&node_a);
    assert_eq!(now.len(), 1);
    match &now[0] {
        Permission::Folder(rule) => {
            assert_eq!(rule.path(), "/data");
            assert_eq!(rule.flags(), FLAG_READ | FLAG_SEARCH);
        }
        Permission::Owner => panic!("old rule kept"),
    }
    // the requester mirrors what was granted to it
    let mut a = AccessState::new(node_a.clone());
    a.record_granted_by_peer(&[2u8; 20], &request);
    let mirror = a.permissions_granted_by_peer(&[2u8; 20]);
    assert_eq!(mirror.len(), 1);
}

#[test]
fn grant_flow_merges_when_asked() {
    let peer = vec![9u8; 20];
    let mut st = AccessState::new(vec![1u8; 20]);
    st.grant_access(&peer, &vec![grant("/one", true, false)], false).unwrap();
    st.grant_access(&peer, &vec![grant("/two", true, true)], true).unwrap();
    assert_eq!(st.permissions_granted_to_peer(&peer).len(), 2);
    let refused = st.grant_access(&peer, &vec![PermissionGrant {
        path: Some("/x".to_string()),
        search: false,
        read: true,
        write: false,
    }], false);
    assert_eq!(refused, Err(GrantError::NothingToGrant));
    assert_eq!(st.permissions_granted_to_peer(&peer).len(), 2);
}

#[test]
fn remote_peers_do_not_inherit_shared_folders() {
    let me = vec![1u8; 20];
    let other = vec![3u8; 20];
    let mut st = AccessState::new(me.clone());
    st.share_folder(folder("/srv/pub", FLAG_READ | FLAG_SEARCH));
    assert!(st.has_fs_access(&me, "/srv/pub/a", FsOperation::ReadFile));
    assert!(!st.has_fs_access(&me, "/srv/pub/a", FsOperation::WriteFile));
    assert!(!st.has_fs_access(&other, "/srv/pub/a", FsOperation::ListDir));
    assert_eq!(st.check_fs_request(&other, "/srv/pub", FsOperation::ListDir), Some("Access denied".to_string()));
    st.set_peer_permissions(&other, vec![folder("/srv/pub", FLAG_READ | FLAG_SEARCH)]);
    assert_eq!(st.check_fs_request(&other, "/srv/pub", FsOperation::ListDir), None);
    assert!(st.is_me(&me));
}
