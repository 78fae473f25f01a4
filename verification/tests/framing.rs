use lem_ratatui::framing::{read_message, write_message, FrameError, HeaderScan, HeaderStep};

#[test]
fn reads_a_framed_message() {
    let raw = b"Content-Length: 7\r\n\r\n{\"a\":1}";
    let mut cursor = &raw[..];
    assert_eq!(read_message(&mut cursor).unwrap().unwrap(), b"{\"a\":1}");
}

#[test]
fn reads_two_messages_back_to_back() {
    let raw = b"Content-Length: 2\r\n\r\n{}Content-Length: 2\r\n\r\n[]";
    let mut cursor = &raw[..];
    assert_eq!(read_message(&mut cursor).unwrap().unwrap(), b"{}");
    assert_eq!(read_message(&mut cursor).unwrap().unwrap(), b"[]");
    assert!(read_message(&mut cursor).unwrap().is_none());
}

#[test]
fn counts_bytes_not_characters() {
    // The body is 10 bytes but 9 characters: "é" is two bytes.
    let raw = "Content-Length: 10\r\n\r\n{\"a\":\"é\"}".as_bytes();
    let mut cursor = raw;
    let body = read_message(&mut cursor).unwrap().unwrap();
    assert_eq!(String::from_utf8(body).unwrap(), "{\"a\":\"é\"}");
}

#[test]
fn a_multibyte_message_does_not_desync_the_next_one() {
    let mut buf = Vec::new();
    write_message(&mut buf, "{\"t\":\"héllo wörld\"}".as_bytes());
    write_message(&mut buf, b"{\"next\":true}");
    let mut cursor = &buf[..];
    assert_eq!(
        String::from_utf8(read_message(&mut cursor).unwrap().unwrap()).unwrap(),
        "{\"t\":\"héllo wörld\"}"
    );
    assert_eq!(
        read_message(&mut cursor).unwrap().unwrap(),
        b"{\"next\":true}"
    );
}

#[test]
fn tolerates_extra_headers_and_lax_spacing() {
    let raw = b"Content-Type: application/json\r\nContent-Length:2\r\n\r\n{}";
    let mut cursor = &raw[..];
    assert_eq!(read_message(&mut cursor).unwrap().unwrap(), b"{}");
}

#[test]
fn an_empty_stream_is_a_clean_end() {
    let mut cursor = &b""[..];
    assert!(read_message(&mut cursor).unwrap().is_none());
}

#[test]
fn a_truncated_body_is_an_error_not_a_short_read() {
    let raw = b"Content-Length: 99\r\n\r\n{}";
    let mut cursor = &raw[..];
    assert!(read_message(&mut cursor).is_err());
}

#[test]
fn round_trips() {
    let mut buf = Vec::new();
    write_message(&mut buf, b"{\"hello\":true}");
    assert!(buf.starts_with(b"Content-Length: 14\r\n\r\n"));
    let mut cursor = &buf[..];
    assert_eq!(
        read_message(&mut cursor).unwrap().unwrap(),
        b"{\"hello\":true}"
    );
}

#[test]
fn the_header_counts_the_body_in_decimal() {
    let mut buf = Vec::new();
    write_message(&mut buf, b"");
    assert_eq!(buf, b"Content-Length: 0\r\n\r\n");
    let mut buf = Vec::new();
    write_message(&mut buf, &[b'x'; 1234]);
    assert!(buf.starts_with(b"Content-Length: 1234\r\n\r\n"));
    assert_eq!(buf.len(), "Content-Length: 1234\r\n\r\n".len() + 1234);
}

#[test]
fn a_stream_ending_inside_a_header_is_an_error() {
    let mut cursor = &b"Content-Length: 2\r\n"[..];
    assert_eq!(read_message(&mut cursor), Err(FrameError::EndedInHeader));
}

#[test]
fn a_header_block_without_a_length_is_an_error() {
    let mut cursor = &b"Content-Type: application/json\r\n\r\n{}"[..];
    assert_eq!(read_message(&mut cursor), Err(FrameError::MissingLength));
    let mut cursor = &b"Content-Length: lots\r\n\r\n{}"[..];
    assert_eq!(read_message(&mut cursor), Err(FrameError::MissingLength));
}

#[test]
fn a_header_that_is_not_utf8_is_an_error() {
    let mut cursor = &b"Content-Length: 2\xff\r\n\r\n{}"[..];
    assert_eq!(read_message(&mut cursor), Err(FrameError::InvalidUtf8));
}

#[test]
fn a_truncated_body_says_so() {
    let mut cursor = &b"Content-Length: 5\r\n\r\nab"[..];
    assert_eq!(read_message(&mut cursor), Err(FrameError::TruncatedBody));
}

#[test]
fn the_last_length_header_wins_and_a_bad_one_forgets_it() {
    let mut cursor = &b"Content-Length: 9\r\nContent-Length: 1\r\n\r\nab"[..];
    assert_eq!(read_message(&mut cursor).unwrap().unwrap(), b"a");
    assert_eq!(cursor, b"b");
    let mut cursor = &b"Content-Length: 1\r\nContent-Length: x\r\n\r\na"[..];
    assert_eq!(read_message(&mut cursor), Err(FrameError::MissingLength));
}

#[test]
fn a_length_may_carry_a_plus_sign_and_surrounding_blanks() {
    let mut cursor = &b"Content-Length:\t+3  \n\nabcd"[..];
    assert_eq!(read_message(&mut cursor).unwrap().unwrap(), b"abc");
    assert_eq!(cursor, b"d");
}

#[test]
fn reading_leaves_the_rest_of_the_stream() {
    let mut cursor = &b"Content-Length: 1\r\n\r\nxyz"[..];
    assert_eq!(read_message(&mut cursor).unwrap().unwrap(), b"x");
    assert_eq!(cursor, b"yz");
}

#[test]
fn what_is_written_reads_back_with_the_rest_untouched() {
    let mut wire = Vec::new();
    write_message(&mut wire, "ünïcödé body".as_bytes());
    wire.extend_from_slice(b"trailing");
    let mut cursor = &wire[..];
    assert_eq!(read_message(&mut cursor).unwrap().unwrap(), "ünïcödé body".as_bytes());
    assert_eq!(cursor, b"trailing");
}

#[test]
fn a_header_scan_follows_the_lines() {
    let mut scan = HeaderScan::new();
    assert_eq!(scan.at_end(), Ok(()));
    assert_eq!(scan.line(b"Content-Length: 12\r\n"), HeaderStep::More);
    assert_eq!(scan.at_end(), Err(FrameError::EndedInHeader));
    assert_eq!(scan.line(b"X: y\r\n"), HeaderStep::More);
    assert_eq!(scan.line(b"\r\n"), HeaderStep::Body(12));

    let mut scan = HeaderScan::new();
    assert_eq!(scan.line(b"\n"), HeaderStep::MissingLength);
    assert_eq!(scan.line(b"\xc3\r\n"), HeaderStep::InvalidUtf8);
}
