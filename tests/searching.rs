use puppynet::catalog::Catalog;
use puppynet::scan::Location;
use puppynet::results::fetch_scan_results_page;
use puppynet::search::{search_files, SearchQuery};

fn query() -> SearchQuery {
    SearchQuery {
        name_query: None,
        mime_types: Vec::new(),
        date_from: None,
        date_to: None,
        min_replicas: None,
        max_replicas: None,
        sort_desc: false,
        page: 0,
        page_size: 10,
    }
}

fn catalog() -> Catalog {
    let node_a = vec![1u8; 16];
    let node_b = vec![2u8; 16];
    let mut c = Catalog::new();
    c.upsert_entry(&[1; 32], 10, Some("image/jpeg".to_string()), 100);
    c.upsert_location(&node_a, &"/photos/Beach.JPG".to_string(), &[1; 32], 10);
    c.upsert_entry(&[2; 32], 20, None, 300);
    c.upsert_location(&node_a, &"/docs/report.pdf".to_string(), &[2; 32], 20);
    c.upsert_entry(&[3; 32], 30, Some("image/png".to_string()), 200);
    c.upsert_location(&node_a, &"/photos/beach2.png".to_string(), &[3; 32], 30);
    c.upsert_location(&node_b, &"/backup/Beach.JPG".to_string(), &[1; 32], 10);
    c
}

#[test]
fn search_orders_and_pages() {
    let c = catalog();
    let (rows, _, total) = search_files(&c, &query());
    assert_eq!(total, 4);
    let latest: Vec<i64> = rows.iter().map(|r| r.latest_seen).collect();
    assert_eq!(latest, vec![100, 100, 200, 300]);
    let mut q = query();
    q.sort_desc = true;
    q.page_size = 3;
    q.page = 1;
    let (rows, _, total) = search_files(&c, &q);
    assert_eq!(total, 4);
    assert_eq!(rows.len(), 1);
    assert_eq!(rows[0].latest_seen, 100);
    q.page = 5;
    assert!(search_files(&c, &q).0.is_empty());
}

#[test]
fn search_filters_by_name_and_replicas() {
    let c = catalog();
    let mut q = query();
    q.name_query = Some("BEACH".to_string());
    let (rows, _, total) = search_files(&c, &q);
    assert_eq!(total, 3);
    assert!(rows.iter().all(|r| r.path.to_lowercase().contains("beach")));
    q.min_replicas = Some(2);
    let (rows, _, total) = search_files(&c, &q);
    assert_eq!(total, 2);
    assert!(rows.iter().all(|r| r.replicas == 2));
    let mut q = query();
    q.name_query = Some("photos".to_string());
    assert_eq!(search_files(&c, &q).2, 0);
}

#[test]
fn search_filters_by_date() {
    let c = catalog();
    let mut q = query();
    q.date_from = Some(150);
    q.date_to = Some(250);
    let (rows, _, total) = search_files(&c, &q);
    assert_eq!(total, 1);
    assert_eq!(rows[0].path, "/photos/beach2.png");
    assert_eq!(rows[0].size, 30);
}

#[test]
fn search_filters_by_mime_and_lists_mimes() {
    let c = catalog();
    let (_, mut mimes, _) = search_files(&c, &query());
    mimes.sort();
    assert_eq!(mimes, vec!["image/jpeg".to_string(), "image/png".to_string()]);
    let mut q = query();
    q.mime_types = vec!["image/png".to_string()];
    let (rows, mimes, total) = search_files(&c, &q);
    assert_eq!(total, 1);
    assert_eq!(rows[0].mime_type.as_deref(), Some("image/png"));
    assert_eq!(mimes, vec!["image/png".to_string()]);
}

#[test]
fn scan_results_get_mime_from_name() {
    let mut c = Catalog::new();
    let visited = vec![Location { path: "/d/notes.txt".to_string(), hash: vec![4; 32], size: 3 }];
    c.apply_scan(&[7; 16], &visited, &Vec::new(), 5);
    assert_eq!(c.entries()[0].mime_type.as_deref(), Some("text/plain"));
    assert_eq!(puppynet::entries::guess_mime("a/b/photo.png").as_deref(), Some("image/png"));
    assert_eq!(puppynet::entries::guess_mime("README"), None);
}

#[test]
fn scan_results_newest_first() {
    let c = catalog();
    let (rows, total) = fetch_scan_results_page(&c, 0, 2);
    assert_eq!(total, 3);
    let latest: Vec<i64> = rows.iter().map(|r| r.latest_datetime).collect();
    assert_eq!(latest, vec![300, 200]);
    let (rows, _) = fetch_scan_results_page(&c, 1, 2);
    assert_eq!(rows.len(), 1);
    assert_eq!(rows[0].latest_datetime, 100);
    assert_eq!(rows[0].mime_type.as_deref(), Some("image/jpeg"));
    assert!(fetch_scan_results_page(&c, usize::MAX, usize::MAX).0.is_empty());
    assert!(fetch_scan_results_page(&c, 0, 0).0.is_empty());
}
