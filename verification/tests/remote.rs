use d4::remote::{
    clamp_seek, parse_content_length, read_window, size_from_probe, HttpReader, RemoteError,
    SeekFrom,
};

#[test]
fn content_length_parses_plain_digits() {
    assert_eq!(parse_content_length(&b"0".to_vec()), Some(0));
    assert_eq!(parse_content_length(&b"123".to_vec()), Some(123));
    assert_eq!(parse_content_length(&b"0008192".to_vec()), Some(8192));
}

#[test]
fn content_length_accepts_one_leading_plus() {
    assert_eq!(parse_content_length(&b"+7".to_vec()), Some(7));
    assert_eq!(parse_content_length(&b"++7".to_vec()), None);
}

#[test]
fn content_length_rejects_junk() {
    assert_eq!(parse_content_length(&b"".to_vec()), None);
    assert_eq!(parse_content_length(&b"+".to_vec()), None);
    assert_eq!(parse_content_length(&b"12a".to_vec()), None);
    assert_eq!(parse_content_length(&b"-12".to_vec()), None);
    assert_eq!(parse_content_length(&b" 12".to_vec()), None);
}

#[test]
fn content_length_stops_at_sixty_four_bits() {
    assert_eq!(
        parse_content_length(&b"18446744073709551615".to_vec()),
        Some(u64::MAX)
    );
    assert_eq!(parse_content_length(&b"18446744073709551616".to_vec()), None);
    assert_eq!(parse_content_length(&b"99999999999999999999999".to_vec()), None);
}

#[test]
fn seek_saturates_at_both_ends() {
    // from-current: positive deltas saturate at the size
    assert_eq!(clamp_seek(5, 10, 3), 8);
    assert_eq!(clamp_seek(5, 10, 100), 10);
    // negative deltas saturate at zero
    assert_eq!(clamp_seek(5, 10, -3), 2);
    assert_eq!(clamp_seek(5, 10, -100), 0);
    assert_eq!(clamp_seek(5, 10, i64::MIN), 0);
    // end-relative zero lands on the size, start-relative zero on zero
    assert_eq!(clamp_seek(10, 10, 0), 10);
    assert_eq!(clamp_seek(0, 10, 0), 0);
}

#[test]
fn read_window_is_empty_at_the_end() {
    assert_eq!(read_window(10, 10, 100), None);
    assert_eq!(read_window(0, 0, 100), None);
    assert_eq!(read_window(3, 10, 0), None);
}

#[test]
fn read_window_never_reaches_past_the_last_byte() {
    assert_eq!(read_window(0, 10, 4), Some((0, 3)));
    assert_eq!(read_window(7, 10, 4), Some((7, 9)));
    assert_eq!(read_window(9, 10, 1), Some((9, 9)));
    assert_eq!(read_window(0, 10, usize::MAX), Some((0, 9)));
}

#[test]
fn unparseable_endpoint_fails_with_a_transport_error() {
    match HttpReader::new("not a url at all") {
        Err(RemoteError::Transport) => {}
        _ => panic!("an unparseable endpoint must fail before any request"),
    }
}

#[test]
fn seek_requests_compare_by_value() {
    assert_eq!(SeekFrom::Start(3), SeekFrom::Start(3));
    assert_ne!(SeekFrom::Start(3), SeekFrom::End(3));
    assert_ne!(SeekFrom::Current(-1), SeekFrom::Current(1));
}

#[test]
fn probe_without_a_size_field_is_a_protocol_error() {
    assert_eq!(size_from_probe(None), Err(RemoteError::Protocol));
}

#[test]
fn probe_with_an_unparseable_size_field_is_a_protocol_error() {
    assert_eq!(
        size_from_probe(Some(b"chunked".to_vec())),
        Err(RemoteError::Protocol)
    );
}

#[test]
fn probe_with_a_decimal_size_field_yields_the_size() {
    assert_eq!(size_from_probe(Some(b"4096".to_vec())), Ok(4096));
}
