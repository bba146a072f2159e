use gcs_reader::reader::{parse_u64_decimal, read_end, seek_target, size_from_metadata};
use gcs_reader::{GCSReaderError, SeekFrom};

fn sample_content() -> Vec<u8> {
    (0u8..30u8).collect()
}

#[test]
fn seek_start_then_read_requests_that_window() {
    let content = sample_content();
    let len = content.len() as u64;
    let pos = seek_target(0, len, SeekFrom::Start(10)).unwrap();
    assert_eq!(pos, 10);
    let end = read_end(pos, 10, len);
    assert_eq!(end, 20);
    let served = &content[pos as usize..end as usize];
    assert_eq!(served, &[10, 11, 12, 13, 14, 15, 16, 17, 18, 19]);
}

#[test]
fn seek_end_then_read_returns_last_bytes() {
    let content = sample_content();
    let len = content.len() as u64;
    let pos = seek_target(0, len, SeekFrom::End(-10)).unwrap();
    assert_eq!(pos, 20);
    let end = read_end(pos, 10, len);
    assert_eq!(end, len);
    let served = &content[pos as usize..end as usize];
    assert_eq!(served, &content[content.len() - 10..]);
}

#[test]
fn repeated_reads_reproduce_content() {
    let content: Vec<u8> = (0u8..23u8).collect();
    let len = content.len() as u64;
    let mut pos: u64 = 0;
    let mut out: Vec<u8> = Vec::new();
    loop {
        let end = read_end(pos, 10, len);
        if pos >= end {
            break;
        }
        out.extend_from_slice(&content[pos as usize..end as usize]);
        pos = end;
    }
    assert_eq!(out, content);
}

#[test]
fn empty_range_reads_zero_bytes() {
    // Cursor at the end, past the end, or an empty buffer: the computed
    // range is empty and a read returns 0 bytes.
    assert_eq!(read_end(30, 10, 30), 30);
    assert_eq!(read_end(35, 10, 30), 30);
    assert_eq!(read_end(5, 0, 30), 5);
}

#[test]
fn seek_current_moves_relative() {
    assert_eq!(seek_target(5, 30, SeekFrom::Current(7)).unwrap(), 12);
    assert_eq!(seek_target(5, 30, SeekFrom::Current(-5)).unwrap(), 0);
}

#[test]
fn seek_past_end_is_allowed() {
    assert_eq!(seek_target(0, 30, SeekFrom::Start(100)).unwrap(), 100);
    assert_eq!(seek_target(0, 30, SeekFrom::End(10)).unwrap(), 40);
}

#[test]
fn negative_seek_is_invalid() {
    assert_eq!(
        seek_target(0, 30, SeekFrom::End(-40)).unwrap_err(),
        GCSReaderError::InvalidSeekPosition(-10)
    );
    assert_eq!(
        seek_target(3, 30, SeekFrom::Current(-4)).unwrap_err(),
        GCSReaderError::InvalidSeekPosition(-1)
    );
}

#[test]
fn parse_u64_decimal_exact_values() {
    assert_eq!(parse_u64_decimal("0"), Some(0));
    assert_eq!(parse_u64_decimal("1048576"), Some(1048576));
    assert_eq!(parse_u64_decimal("18446744073709551615"), Some(u64::MAX));
}

#[test]
fn parse_u64_decimal_rejects_bad_input() {
    assert_eq!(parse_u64_decimal(""), None);
    assert_eq!(parse_u64_decimal("12a"), None);
    assert_eq!(parse_u64_decimal("-3"), None);
    assert_eq!(parse_u64_decimal(" 7"), None);
    assert_eq!(parse_u64_decimal("18446744073709551616"), None);
}

#[test]
fn size_from_metadata_reads_size_field() {
    let body = "{\"kind\": \"storage#object\", \"size\": \"1048576\"}";
    assert_eq!(size_from_metadata(body), Some(1048576));
}

#[test]
fn size_from_metadata_rejects_bad_bodies() {
    assert_eq!(size_from_metadata("{}"), None);
    assert_eq!(size_from_metadata("{\"size\": 1048576}"), None);
    assert_eq!(size_from_metadata("{\"size\": \"big\"}"), None);
    assert_eq!(size_from_metadata("not json"), None);
}

#[test]
fn default_auth_is_auto() {
    assert!(matches!(gcs_reader::Auth::default(), gcs_reader::Auth::Auto));
}

#[test]
fn literal_token_is_returned_unchanged() {
    let auth = gcs_reader::Auth::Token("my-token-123".to_string());
    assert_eq!(auth.token().unwrap(), "my-token-123");
}
