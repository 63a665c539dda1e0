use puppynet::entries::{sort_entries, DirEntry};
use puppynet::format::{
    abbreviate_hash, abbreviate_peer_id, bytes_to_hex, format_hash, hex_value, parse_hash_param,
    short_hash, short_peer_id, url_encode,
};
use puppynet::http::{parse_range_header, RangeParseError};
use puppynet::paths::{
    is_windows_drive_root, join_child_path, normalize_path, normalize_windows_drive, parent_path,
};

#[test]
fn hex_forms() {
    assert_eq!(bytes_to_hex(&[0x00, 0x0f, 0xa0, 0xff]), "000fa0ff");
    assert_eq!(format_hash(&[1, 2]), "0102");
    assert_eq!(short_hash(&[0xab; 8]), "abababababab...");
    assert_eq!(short_hash(&[0xab; 2]), "abab...");
    assert_eq!(hex_value(b'7'), Some(7));
    assert_eq!(hex_value(b'c'), Some(12));
    assert_eq!(hex_value(b'F'), Some(15));
    assert_eq!(hex_value(b'g'), None);
}

#[test]
fn hash_parameter() {
    let hex = "00112233445566778899aabbccddeeff00112233445566778899AABBCCDDEEFF";
    let hash = parse_hash_param(&format!("  0x{}  ", hex)).unwrap();
    assert_eq!(hash[0], 0x00);
    assert_eq!(hash[1], 0x11);
    assert_eq!(hash[31], 0xff);
    assert_eq!(parse_hash_param("0x"), Err("hash cannot be empty"));
    assert_eq!(parse_hash_param("   "), Err("hash cannot be empty"));
    assert_eq!(parse_hash_param("abcd"), Err("hash must be 32 bytes"));
    let bad = format!("{}g", &hex[..63]);
    assert_eq!(parse_hash_param(&bad), Err("invalid hash"));
    let wide = format!("{}é", &hex[..62]);
    assert_eq!(parse_hash_param(&wide), Err("invalid hash"));
}

#[test]
fn identifiers_shortened() {
    assert_eq!(short_peer_id("12D3KooWAbc"), "12D3KooWAbc");
    assert_eq!(short_peer_id("12D3KooWAbcdefghijklmnop"), "12D3KooWAbcd...");
    assert_eq!(abbreviate_peer_id("12D3KooWAbcdefghijklmnop"), "12D3KooW…klmnop");
    assert_eq!(abbreviate_peer_id("short"), "short");
    assert_eq!(abbreviate_hash("0123456789abcdef0123456789abcdef"), "01234567…89abcdef");
}

#[test]
fn query_values_encoded() {
    assert_eq!(url_encode("a b/c~d"), "a%20b%2Fc~d");
    assert_eq!(url_encode("é"), "%C3%A9");
    assert_eq!(url_encode("A-z_0.9"), "A-z_0.9");
}

#[test]
fn range_headers() {
    assert_eq!(parse_range_header("bytes=0-99", 1000), Ok((0, 99)));
    assert_eq!(parse_range_header("  Bytes= 10- , 20-30", 1000), Ok((10, 999)));
    assert_eq!(parse_range_header("bytes=-100", 1000), Ok((900, 999)));
    assert_eq!(parse_range_header("bytes=-5000", 1000), Ok((0, 999)));
    assert_eq!(parse_range_header("bytes=500-5000", 1000), Ok((500, 999)));
    assert_eq!(parse_range_header("bytes=1000-", 1000), Err(RangeParseError::Unsatisfiable));
    assert_eq!(parse_range_header("bytes=-0", 1000), Err(RangeParseError::Unsatisfiable));
    assert_eq!(parse_range_header("bytes=5-2", 1000), Err(RangeParseError::Unsatisfiable));
    assert_eq!(parse_range_header("bytes=0-1", 0), Err(RangeParseError::Unsatisfiable));
    assert_eq!(parse_range_header("items=0-1", 10), Err(RangeParseError::Invalid));
    assert_eq!(parse_range_header("bytes=", 10), Err(RangeParseError::Invalid));
    assert_eq!(parse_range_header("bytes=-", 10), Err(RangeParseError::Invalid));
    assert_eq!(parse_range_header("bytes=a-b", 10), Err(RangeParseError::Invalid));
    assert_eq!(parse_range_header("bytes=1-2-3", 10), Err(RangeParseError::Invalid));
}

#[test]
fn browser_paths() {
    assert_eq!(normalize_path("  /srv/pub/  "), "/srv/pub");
    assert_eq!(normalize_path(""), "/");
    assert_eq!(normalize_path("///"), "/");
    assert_eq!(join_child_path("/srv", "/pub/"), "/srv/pub");
    assert_eq!(join_child_path("/", "etc"), "/etc");
    assert_eq!(join_child_path("", ""), "/");
    assert_eq!(join_child_path("", "x"), "x");
    assert_eq!(join_child_path("/srv", "//"), "/srv");
    assert_eq!(parent_path("/srv/pub/"), "/srv");
    assert_eq!(parent_path("/srv"), "/");
    assert_eq!(parent_path("/a//b"), "/a");
    assert_eq!(parent_path("name"), "/");
    assert_eq!(parent_path(""), "/");
    assert_eq!(parent_path("a/b"), "a");
    assert!(is_windows_drive_root(" C:\\ "));
    assert!(is_windows_drive_root("d:"));
    assert!(!is_windows_drive_root("C:\\x"));
    assert!(!is_windows_drive_root("1:"));
    assert_eq!(normalize_windows_drive(" C:/ "), "C:\\");
    assert_eq!(normalize_windows_drive("C"), "C");
}

fn entry(name: &str, is_dir: bool) -> DirEntry {
    DirEntry {
        name: name.to_string(),
        is_dir,
        extension: None,
        mime: None,
        size: 0,
        created_at: None,
        modified_at: None,
        accessed_at: None,
    }
}

#[test]
fn listing_dirs_first_then_name_without_case() {
    let sorted = sort_entries(vec![
        entry("b.txt", false),
        entry("Zeta", true),
        entry("A.txt", false),
        entry("alpha", true),
        entry("c.TXT", false),
    ]);
    let names: Vec<&str> = sorted.iter().map(|e| e.name.as_str()).collect();
    assert_eq!(names, vec!["alpha", "Zeta", "A.txt", "b.txt", "c.TXT"]);
    assert!(sort_entries(Vec::new()).is_empty());
}
