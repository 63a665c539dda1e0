use puppynet::format::{decimal, format_scan_event, format_update_progress};
use puppynet::http::{bearer_token, cookie_value};
use puppynet::peers::PeerTables;
use puppynet::scan::{ScanEvent, ScanProgress, ScanStats};
use puppynet::shell::{gather_output, ShellSessions};
use puppynet::streams::RemoteStreams;
use puppynet::update::UpdateProgress;

#[test]
fn connections_follow_transport_events() {
    let mut t = PeerTables::new();
    t.connection_established(vec![1; 4], 10, Some("/ip4/127.0.0.1/tcp/7000".to_string()));
    t.connection_established(vec![2; 4], 11, None);
    t.connection_established(vec![1; 4], 12, Some("/ip4/127.0.0.1/tcp/7000".to_string()));
    assert_eq!(t.connections().len(), 3);
    assert_eq!(t.discovered().len(), 1);
    t.connection_closed(10);
    let ids: Vec<u64> = t.connections().iter().map(|c| c.connection_id).collect();
    assert_eq!(ids, vec![11, 12]);
    t.connection_closed(99);
    assert_eq!(t.connections().len(), 2);
}

#[test]
fn discovery_adds_and_expires_addresses() {
    let mut t = PeerTables::new();
    t.peer_discovered(vec![1; 4], "/ip4/10.0.0.1/tcp/1".to_string());
    t.peer_discovered(vec![1; 4], "/ip4/10.0.0.2/tcp/1".to_string());
    t.peer_discovered(vec![2; 4], "/ip4/10.0.0.3/tcp/1".to_string());
    t.peer_discovered(vec![1; 4], "/ip4/10.0.0.1/tcp/1".to_string());
    assert_eq!(t.known_peer_addresses(&[1; 4]), vec!["/ip4/10.0.0.1/tcp/1", "/ip4/10.0.0.2/tcp/1"]);
    t.peer_expired(&[1; 4], &"/ip4/10.0.0.1/tcp/1".to_string());
    assert_eq!(t.known_peer_addresses(&[1; 4]), vec!["/ip4/10.0.0.2/tcp/1"]);
    assert_eq!(t.discovered().len(), 2);
}

#[test]
fn remote_streams_close_on_terminal_event() {
    let mut s = RemoteStreams::new();
    let a = s.open_stream().unwrap();
    let b = s.open_stream().unwrap();
    assert_ne!(a, b);
    assert!(s.on_event(a, false));
    assert!(s.is_open(a));
    assert!(s.on_event(a, true));
    assert!(!s.is_open(a));
    assert!(!s.on_event(a, false));
    assert!(s.close(b));
    assert!(!s.close(b));
}

#[test]
fn progress_texts() {
    assert_eq!(decimal(0), "0");
    assert_eq!(decimal(1234567890), "1234567890");
    assert_eq!(format_update_progress(&UpdateProgress::AlreadyUpToDate { current_version: 41 }), "Already up to date (41)");
    assert_eq!(
        format_update_progress(&UpdateProgress::Downloading { filename: "a.tar.gz".to_string() }),
        "Downloading a.tar.gz"
    );
    assert_eq!(format_update_progress(&UpdateProgress::Verifying), "Verifying package");
    let p = ScanEvent::Progress(ScanProgress {
        processed_files: 2,
        total_files: 3,
        inserted_count: 1,
        updated_count: 1,
        removed_count: 0,
    });
    assert_eq!(format_scan_event(&p), "Scanned 2/3 files (inserted 1, updated 1, removed 0)");
    let f = ScanEvent::Finished(Ok(ScanStats { inserted_count: 3, updated_count: 0, removed_count: 0, duration_ms: 1235 }));
    assert_eq!(format_scan_event(&f), "Scan finished: inserted 3, updated 0, removed 0 (1.24s)");
    let z = ScanEvent::Finished(Ok(ScanStats { inserted_count: 0, updated_count: 0, removed_count: 0, duration_ms: 4 }));
    assert_eq!(format_scan_event(&z), "Scan finished: inserted 0, updated 0, removed 0 (0.00s)");
    let e = ScanEvent::Finished(Err("cancelled".to_string()));
    assert_eq!(format_scan_event(&e), "Scan failed: cancelled");
}

#[test]
fn session_cookie_and_bearer_headers() {
    assert_eq!(cookie_value("theme=dark; sid=abc123; x=1", "sid"), Some("abc123".to_string()));
    assert_eq!(cookie_value("sid=a=b", "sid"), Some("a=b".to_string()));
    assert_eq!(cookie_value("sidx=1; sid", "sid"), None);
    assert_eq!(cookie_value("", "sid"), None);
    assert_eq!(bearer_token("Bearer tok.en"), Some("tok.en".to_string()));
    assert_eq!(bearer_token("bEaReR x y"), Some("x y".to_string()));
    assert_eq!(bearer_token("Basic abc"), None);
    assert_eq!(bearer_token("Bearer"), None);
}

#[test]
fn shell_sessions_and_output_cap() {
    let mut s = ShellSessions::new();
    assert!(!s.start(4));
    assert!(s.start(4));
    assert!(s.is_live(4));
    assert!(s.end(4));
    assert!(!s.is_live(4));
    let mut out = Vec::new();
    assert!(!gather_output(&mut out, &[1u8; 8192]));
    for _ in 0..6 {
        assert!(!gather_output(&mut out, &[2u8; 8192]));
    }
    assert!(gather_output(&mut out, &[3u8; 8192]));
    assert_eq!(out.len(), 65536);
}
