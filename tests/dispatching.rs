use puppynet::dispatch::{
    complete_waiter, fail_waiter, Outcome, PendingRequests, Response, ResponseKind, Waiter,
};

#[test]
fn response_is_delivered_to_its_waiter() {
    let mut pending = PendingRequests::new();
    assert!(pending.park(7, Waiter::Reply { key: 1, expects: ResponseKind::FileChunk }).is_none());
    assert_eq!(pending.len(), 1);
    match pending.on_response(7, Response::Other(ResponseKind::FileChunk)) {
        Some(Outcome::Deliver { key }) => assert_eq!(key, 1),
        other => panic!("unexpected {:?}", other),
    }
    assert_eq!(pending.len(), 0);
    assert!(pending.on_response(7, Response::Other(ResponseKind::FileChunk)).is_none());
}

#[test]
fn duplicate_id_fails_previous_waiter() {
    let mut pending = PendingRequests::new();
    pending.park(3, Waiter::Reply { key: 10, expects: ResponseKind::DirEntries });
    match pending.park(3, Waiter::Reply { key: 11, expects: ResponseKind::DirEntries }) {
        Some(Outcome::Fail { key, message }) => {
            assert_eq!(key, 10);
            assert_eq!(message, "pending request was replaced");
        }
        other => panic!("unexpected {:?}", other),
    }
    assert_eq!(pending.len(), 1);
}

#[test]
fn wrong_kind_and_error_responses_fail_the_waiter() {
    let w = Waiter::Reply { key: 4, expects: ResponseKind::Cpus };
    match complete_waiter(w, Response::Other(ResponseKind::Disks)) {
        Outcome::Fail { key, message } => {
            assert_eq!(key, 4);
            assert_eq!(message, "unexpected response: Disks");
        }
        other => panic!("unexpected {:?}", other),
    }
    match complete_waiter(w, Response::Error("Access denied".to_string())) {
        Outcome::Fail { message, .. } => assert_eq!(message, "Access denied"),
        other => panic!("unexpected {:?}", other),
    }
    let shell = Waiter::Reply { key: 5, expects: ResponseKind::ShellOutput };
    assert!(matches!(complete_waiter(shell, Response::Other(ResponseKind::ShellExited)), Outcome::Deliver { key: 5 }));
}

#[test]
fn transport_failure_reaches_waiter() {
    let mut pending = PendingRequests::new();
    pending.park(1, Waiter::Reply { key: 2, expects: ResponseKind::Permissions });
    match pending.on_failure(1, "connection closed") {
        Some(Outcome::Fail { key, message }) => {
            assert_eq!(key, 2);
            assert_eq!(message, "request failed: connection closed");
        }
        other => panic!("unexpected {:?}", other),
    }
}

#[test]
fn remote_stream_start_refusal_closes_stream() {
    let w = Waiter::RemoteScanStart { scan_id: 9 };
    match complete_waiter(w, Response::ScanStarted(Err("busy".to_string()))) {
        Outcome::EndScan { scan_id, error } => {
            assert_eq!(scan_id, 9);
            assert_eq!(error, "busy");
        }
        other => panic!("unexpected {:?}", other),
    }
    assert!(matches!(complete_waiter(w, Response::ScanStarted(Ok(()))), Outcome::Ignore));
    let u = Waiter::RemoteUpdateStart { update_id: 2 };
    assert!(matches!(fail_waiter(u, "gone".to_string()), Outcome::EndUpdate { update_id: 2, .. }));
    assert!(matches!(fail_waiter(Waiter::ScanEventAck, "x".to_string()), Outcome::Ignore));
}
