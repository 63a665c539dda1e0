use puppynet::access::{FolderRule, Permission, PermissionGrant, FLAG_READ, FLAG_SEARCH};
use puppynet::node::{AccessState, FsOperation, GrantReply};
use puppynet::session::AuthError;
use puppynet::users::{User, UserError, UserStore};

#[test]
fn user_names_are_unique() {
    let mut users = UserStore::new();
    assert_eq!(users.create_user("alice".to_string(), "pw1"), Ok(()));
    assert_eq!(users.create_user("alice".to_string(), "pw2"), Err(UserError::AlreadyExists));
    assert_eq!(users.users().len(), 1);
    assert!(users.contains("alice"));
    assert!(!users.contains("bob"));
    assert_ne!(users.users()[0].passw, "pw1");
    assert_eq!(users.verify_user_credentials("alice", "pw1"), Ok(true));
    assert_eq!(users.verify_user_credentials("alice", "pw2"), Ok(false));
    assert_eq!(users.verify_user_credentials("bob", "pw1"), Ok(false));
}

#[test]
fn grant_reply_repeats_the_grants() {
    let mut b = AccessState::new(vec![2u8; 20]);
    let a = vec![1u8; 20];
    let grants = vec![PermissionGrant { path: Some("/data".to_string()), search: true, read: true, write: false }];
    match b.answer_grant_request(&a, "gui".to_string(), grants, false) {
        GrantReply::AccessGranted { username, permissions } => {
            assert_eq!(username, "gui");
            assert_eq!(permissions.len(), 1);
            assert_eq!(permissions[0].path.as_deref(), Some("/data"));
        }
        GrantReply::Error(e) => panic!("refused: {e}"),
    }
    let none = vec![PermissionGrant { path: Some("/x".to_string()), search: false, read: false, write: false }];
    match b.answer_grant_request(&a, "gui".to_string(), none, true) {
        GrantReply::Error(e) => assert_eq!(e, "No permissions to grant"),
        GrantReply::AccessGranted { .. } => panic!("nothing should be granted"),
    }
    assert_eq!(b.permissions_granted_to_peer(&a).len(), 1);
}

#[test]
fn request_verdicts() {
    let me = vec![1u8; 20];
    let peer = vec![2u8; 20];
    let mut st = AccessState::new(me);
    st.set_peer_permissions(&peer, vec![Permission::Folder(FolderRule::new("/srv/pub".to_string(), FLAG_READ | FLAG_SEARCH).unwrap())]);
    assert_eq!(
        st.fs_request_verdict(&peer, FsOperation::ListDir, Err("No such file or directory (os error 2)")),
        Some("Failed to access directory: No such file or directory (os error 2)".to_string())
    );
    assert_eq!(
        st.fs_request_verdict(&peer, FsOperation::ReadFile, Err("gone")),
        Some("Failed to access file: gone".to_string())
    );
    assert_eq!(st.fs_request_verdict(&peer, FsOperation::ListDir, Ok("/srv/priv")), Some("Access denied".to_string()));
    assert_eq!(st.fs_request_verdict(&peer, FsOperation::ListDir, Ok("/srv/pub")), None);
    assert_eq!(st.fs_request_verdict(&peer, FsOperation::WriteFile, Ok("/srv/pub/x")), Some("Access denied".to_string()));
}

#[test]
fn restored_accounts_keep_names_unique() {
    let mut users = UserStore::new();
    assert!(users.restore(User { name: "a".to_string(), passw: "x".to_string() }));
    assert!(!users.restore(User { name: "a".to_string(), passw: "y".to_string() }));
    assert_eq!(users.users().len(), 1);
    assert_eq!(users.verify_user_credentials("a", "pw"), Err(UserError::Auth(AuthError::MalformedHash)));
}
