use puppynet::catalog::{node_id_of, normalize_node_id, Catalog};
use puppynet::scan::{Location, ScanEvent, ScanRun};

fn loc(path: &str, hash: u8, size: u64) -> Location {
    Location { path: path.to_string(), hash: vec![hash; 32], size }
}

fn pass(previous: Vec<Location>, files: &[(&str, Vec<u8>)]) -> (Vec<ScanEvent>, Vec<String>, Vec<Location>) {
    let mut run = ScanRun::new(previous, files.len() as u64);
    let mut events = Vec::new();
    for (path, contents) in files {
        if let Some(e) = run.record_contents(path.to_string(), contents) {
            events.push(e);
        }
    }
    let (finished, removed) = run.finish(1).unwrap();
    events.push(finished);
    let visited = run
        .visited()
        .iter()
        .map(|l| Location { path: l.path.clone(), hash: l.hash.clone(), size: l.size })
        .collect();
    (events, removed, visited)
}

fn three_files() -> Vec<(&'static str, Vec<u8>)> {
    vec![("/d/a", vec![1u8; 10]), ("/d/b", vec![2u8; 20]), ("/d/c", vec![3u8; 30])]
}

#[test]
fn scan_three_files_then_rescan() {
    let (events, removed, visited) = pass(Vec::new(), &three_files());
    assert_eq!(events.len(), 4);
    let mut last = 0;
    for e in &events[..3] {
        match e {
            ScanEvent::Progress(p) => {
                assert_eq!(p.total_files, 3);
                assert!(p.processed_files >= last);
                last = p.processed_files;
            }
            _ => panic!("progress expected"),
        }
    }
    match &events[3] {
        ScanEvent::Finished(Ok(stats)) => {
            assert_eq!((stats.inserted_count, stats.updated_count, stats.removed_count), (3, 0, 0));
            assert!(stats.duration_ms > 0);
        }
        _ => panic!("finished expected"),
    }
    assert!(removed.is_empty());
    assert_eq!(visited[1].size, 20);
    let (events, removed, _) = pass(visited, &three_files());
    match events.last().unwrap() {
        ScanEvent::Finished(Ok(stats)) => {
            assert_eq!((stats.inserted_count, stats.updated_count, stats.removed_count), (0, 0, 0));
        }
        _ => panic!("finished expected"),
    }
    assert!(removed.is_empty());
}

#[test]
fn scan_after_deleting_one_file() {
    let (_, _, visited) = pass(Vec::new(), &three_files());
    let mut files = three_files();
    files.remove(1);
    let (events, removed, _) = pass(visited, &files);
    match events.last().unwrap() {
        ScanEvent::Finished(Ok(stats)) => {
            assert_eq!((stats.inserted_count, stats.updated_count, stats.removed_count), (0, 0, 1));
        }
        _ => panic!("finished expected"),
    }
    assert_eq!(removed, vec!["/d/b".to_string()]);
}

#[test]
fn changed_content_counts_as_update() {
    let previous = vec![loc("/d/a", 9, 10)];
    let mut run = ScanRun::new(previous, 1);
    run.record_file("/d/a".to_string(), vec![8; 32], 10);
    let p = run.progress();
    assert_eq!((p.inserted_count, p.updated_count, p.processed_files), (0, 1, 1));
}

#[test]
fn nothing_after_finished() {
    let mut run = ScanRun::new(Vec::new(), 2);
    assert!(run.record_file("/x".to_string(), vec![1; 32], 1).is_some());
    match run.cancel() {
        Some(ScanEvent::Finished(Err(msg))) => assert_eq!(msg, "cancelled"),
        _ => panic!("cancel must finish the stream"),
    }
    assert!(run.record_file("/y".to_string(), vec![1; 32], 1).is_none());
    assert!(run.finish(5).is_none());
    assert!(run.fail("late".to_string()).is_none());
}

#[test]
fn duplicate_path_is_counted_once() {
    let mut run = ScanRun::new(Vec::new(), 2);
    run.record_file("/x".to_string(), vec![1; 32], 1);
    run.record_file("/x".to_string(), vec![1; 32], 1);
    assert_eq!(run.progress().inserted_count, 1);
    assert_eq!(run.visited().len(), 1);
}

#[test]
fn content_hash_is_sha256() {
    let mut run = ScanRun::new(Vec::new(), 1);
    run.record_contents("/abc".to_string(), b"abc");
    let hex: String = run.visited()[0].hash.iter().map(|b| format!("{:02x}", b)).collect();
    assert_eq!(hex, "ba7816bf8f01cfea414140de5dae2223b00361a396177a9cb410ff61f20015ad");
    assert_eq!(run.visited()[0].size, 3);
}

#[test]
fn catalog_keeps_entries_for_locations() {
    let node = vec![5u8; 16];
    let mut catalog = Catalog::new();
    let (_, removed, visited) = pass(Vec::new(), &three_files());
    catalog.apply_scan(&node, &visited, &removed, 100);
    assert_eq!(catalog.entries().len(), 3);
    assert_eq!(catalog.locations().len(), 3);
    let mut files = three_files();
    files.remove(0);
    let previous: Vec<Location> = visited;
    let (_, removed, visited) = pass(previous, &files);
    catalog.apply_scan(&node, &visited, &removed, 200);
    assert_eq!(catalog.locations().len(), 2);
    for l in catalog.locations() {
        assert!(catalog.entries().iter().any(|e| e.hash == l.hash));
    }
    let b = catalog.entries().iter().find(|e| e.hash == vec![0u8; 0]).is_none();
    assert!(b);
    assert!(catalog.entries().iter().any(|e| e.latest_seen == 200 && e.first_seen == 100));
}

#[test]
fn node_ids_are_sixteen_bytes() {
    let peer: Vec<u8> = (0..38u8).collect();
    assert_eq!(node_id_of(&peer).unwrap(), (0..16u8).collect::<Vec<u8>>());
    assert!(node_id_of(&peer[..10]).is_none());
    assert_eq!(normalize_node_id(&peer[..20]).len(), 16);
    assert_eq!(normalize_node_id(&peer[..4]), peer[..4].to_vec());
}

#[test]
fn rescan_drops_the_deleted_location() {
    let node = vec![5u8; 16];
    let other = vec![6u8; 16];
    let mut catalog = Catalog::new();
    catalog.upsert_entry(&[9; 32], 1, None, 1);
    catalog.upsert_location(&other, &"/d/b".to_string(), &[9; 32], 1);
    let (_, removed, visited) = pass(Vec::new(), &three_files());
    catalog.apply_scan(&node, &visited, &removed, 100);
    let mut files = three_files();
    files.remove(1);
    let (_, removed, visited) = pass(visited, &files);
    catalog.apply_scan(&node, &visited, &removed, 200);
    let mine: Vec<&str> = catalog.locations().iter().filter(|l| l.node_id == node).map(|l| l.path.as_str()).collect();
    assert_eq!(mine, vec!["/d/a", "/d/c"]);
    assert!(catalog.locations().iter().any(|l| l.node_id == other && l.path == "/d/b"));
}
