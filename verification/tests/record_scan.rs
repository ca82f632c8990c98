use port_handshake::record::parse_port;
use port_handshake::record::scan_record;
use port_handshake::record::ScanOutcome;

#[test]
fn port_values_parse_as_nonnegative_decimals() {
    assert_eq!(parse_port(b"8421"), Some(8421));
    assert_eq!(parse_port(b"0"), Some(0));
    assert_eq!(parse_port(b"0008421"), Some(8421));
    assert_eq!(parse_port(b"2147483647"), Some(2147483647));
    assert_eq!(parse_port(b"2147483648"), None);
    assert_eq!(parse_port(b""), None);
    assert_eq!(parse_port(b"+1"), None);
    assert_eq!(parse_port(b"-1"), None);
    assert_eq!(parse_port(b"80 "), None);
    assert_eq!(parse_port(b"8o80"), None);
}

#[test]
fn scenario_atomic_write_resolves() {
    // The child wrote the whole record in one operation.
    let r = scan_record(b"foo=bar\nsock=8421\nEOF");
    assert_eq!(r, ScanOutcome::Resolved(8421));
}

#[test]
fn scenario_partial_then_sentinel() {
    // First read: the sock line landed but the sentinel has not yet.
    assert_eq!(scan_record(b"sock=8421\n"), ScanOutcome::Incomplete);
    // Second read, after the delayed append of the sentinel.
    assert_eq!(scan_record(b"sock=8421\nEOF\n"), ScanOutcome::Resolved(8421));
}

#[test]
fn scenario_sentinel_without_sock_is_fatal() {
    // Chosen policy: a complete record with no sock line is a terminal
    // protocol violation, not a record still being written.
    assert_eq!(scan_record(b"EOF"), ScanOutcome::MissingKey);
    assert_eq!(scan_record(b"EOF\n"), ScanOutcome::MissingKey);
    assert_eq!(scan_record(b"foo=bar\nEOF\n"), ScanOutcome::MissingKey);
}

#[test]
fn empty_record_is_incomplete() {
    assert_eq!(scan_record(b""), ScanOutcome::Incomplete);
}

#[test]
fn partial_sock_line_is_incomplete() {
    // A partially flushed write must never resolve.
    assert_eq!(scan_record(b"sock=84"), ScanOutcome::Incomplete);
    assert_eq!(scan_record(b"sock"), ScanOutcome::Incomplete);
}

#[test]
fn sentinel_not_last_line_is_incomplete() {
    // Content appended after the sentinel line reopens the record.
    assert_eq!(scan_record(b"sock=8421\nEOF\nextra"), ScanOutcome::Incomplete);
    assert_eq!(scan_record(b"EOF\n\n"), ScanOutcome::Incomplete);
}

#[test]
fn sentinel_must_be_whole_line() {
    assert_eq!(scan_record(b"sock=1\nxEOF"), ScanOutcome::Incomplete);
    assert_eq!(scan_record(b"sock=1\nEOFx"), ScanOutcome::Incomplete);
    assert_eq!(scan_record(b"sock=1\nEO"), ScanOutcome::Incomplete);
}

#[test]
fn first_sock_line_wins() {
    let r = scan_record(b"sock=1111\nsock=2222\nEOF");
    assert_eq!(r, ScanOutcome::Resolved(1111));
}

#[test]
fn sock_line_position_is_free() {
    assert_eq!(scan_record(b"sock=443\na line\nEOF"), ScanOutcome::Resolved(443));
    assert_eq!(
        scan_record(b"noise\nfoo=bar\nsock=65535\nEOF"),
        ScanOutcome::Resolved(65535)
    );
}

#[test]
fn unparsable_value_is_fatal() {
    assert_eq!(scan_record(b"sock=84x1\nEOF"), ScanOutcome::BadValue);
    assert_eq!(scan_record(b"sock=\nEOF"), ScanOutcome::BadValue);
    assert_eq!(scan_record(b"sock=-5\nEOF"), ScanOutcome::BadValue);
    assert_eq!(scan_record(b"sock= 8421\nEOF"), ScanOutcome::BadValue);
    assert_eq!(scan_record(b"sock=1=2\nEOF"), ScanOutcome::BadValue);
}

#[test]
fn value_bounds() {
    assert_eq!(scan_record(b"sock=0\nEOF"), ScanOutcome::Resolved(0));
    assert_eq!(
        scan_record(b"sock=2147483647\nEOF"),
        ScanOutcome::Resolved(2147483647)
    );
    assert_eq!(scan_record(b"sock=2147483648\nEOF"), ScanOutcome::BadValue);
    assert_eq!(
        scan_record(b"sock=99999999999999999999\nEOF"),
        ScanOutcome::BadValue
    );
}

#[test]
fn leading_zeros_parse() {
    assert_eq!(scan_record(b"sock=007\nEOF"), ScanOutcome::Resolved(7));
}

#[test]
fn key_must_match_exactly() {
    assert_eq!(scan_record(b"socks=1\nEOF"), ScanOutcome::MissingKey);
    assert_eq!(scan_record(b"SOCK=1\nEOF"), ScanOutcome::MissingKey);
    assert_eq!(scan_record(b"soc=1\nEOF"), ScanOutcome::MissingKey);
    assert_eq!(scan_record(b"mysock=1\nEOF"), ScanOutcome::MissingKey);
}

#[test]
fn lines_without_key_value_shape_are_ignored() {
    let r = scan_record(b"just text\n\n=orphan\nsock=8080\nEOF\n");
    assert_eq!(r, ScanOutcome::Resolved(8080));
}
