use puppynet::chunk::{chunk_from_read, next_offset, plan_read, write_extent, WriteError, DEFAULT_READ_LEN};

fn read_all(file: &[u8], length: Option<u64>) -> (Vec<u8>, Vec<(u64, usize, bool)>) {
    let mut out = Vec::new();
    let mut seen = Vec::new();
    let mut offset = 0u64;
    loop {
        let n = plan_read(file.len() as u64, offset, length);
        let start = offset as usize;
        let data = file[start.min(file.len())..(start + n as usize).min(file.len())].to_vec();
        let chunk = chunk_from_read(file.len() as u64, offset, data);
        seen.push((chunk.offset, chunk.data.len(), chunk.eof));
        out.extend_from_slice(&chunk.data);
        match next_offset(&chunk) {
            Some(next) => offset = next,
            None => break,
        }
    }
    (out, seen)
}

#[test]
fn chunked_read_of_200000_bytes() {
    let file: Vec<u8> = (0..200_000u32).map(|i| (i % 251) as u8).collect();
    let (data, seen) = read_all(&file, Some(65_536));
    assert_eq!(
        seen,
        vec![(0, 65_536, false), (65_536, 65_536, false), (131_072, 65_536, false), (196_608, 3_392, true)]
    );
    assert_eq!(data, file);
}

#[test]
fn default_read_length_is_capped() {
    assert_eq!(plan_read(1_000_000, 0, None), DEFAULT_READ_LEN);
    assert_eq!(plan_read(100, 40, None), 60);
    let file = vec![7u8; 150_000];
    let (data, seen) = read_all(&file, None);
    assert_eq!(data.len(), 150_000);
    assert_eq!(seen.len(), 3);
}

#[test]
fn read_past_end_is_empty_and_final() {
    assert_eq!(plan_read(10, 10, Some(5)), 0);
    let chunk = chunk_from_read(10, 12, Vec::new());
    assert!(chunk.eof);
    assert_eq!(next_offset(&chunk), None);
    let empty = chunk_from_read(0, 0, Vec::new());
    assert!(empty.eof);
}

#[test]
fn short_read_is_not_end_of_file() {
    let chunk = chunk_from_read(100, 0, vec![1, 2, 3]);
    assert!(!chunk.eof);
    assert_eq!(next_offset(&chunk), Some(3));
}

#[test]
fn write_extends_but_never_shrinks() {
    assert_eq!(write_extent(10, 8, 5), Ok(13));
    assert_eq!(write_extent(100, 8, 5), Ok(100));
    assert_eq!(write_extent(0, u64::MAX, 1), Err(WriteError::LengthOverflow));
}
