use std::io::Read;
use std::io::Write;

use port_handshake::launch::step;
use port_handshake::launch::LaunchEvent;
use port_handshake::launch::LaunchState;
use port_handshake::record::scan_record;
use port_handshake::record::ScanOutcome;
use tempfile::NamedTempFile;

// Two concurrent launches each allocate their own handshake file; the
// allocator guarantees the paths are distinct, and the scans of the two
// channels do not interfere with each other's result.
#[test]
fn concurrent_launches_use_distinct_channels() {
    let mut first = NamedTempFile::new().expect("allocate first handshake file");
    let mut second = NamedTempFile::new().expect("allocate second handshake file");
    assert_ne!(first.path(), second.path());

    first.write_all(b"sock=8421\nEOF\n").expect("write first record");
    second.write_all(b"sock=9001\nEOF\n").expect("write second record");

    let mut first_read = Vec::new();
    first
        .reopen()
        .expect("reopen first")
        .read_to_end(&mut first_read)
        .expect("read first record");
    let mut second_read = Vec::new();
    second
        .reopen()
        .expect("reopen second")
        .read_to_end(&mut second_read)
        .expect("read second record");

    assert_eq!(scan_record(&first_read), ScanOutcome::Resolved(8421));
    assert_eq!(scan_record(&second_read), ScanOutcome::Resolved(9001));

    let one = step(LaunchState::Polling(4), LaunchEvent::ReadOk(first_read));
    let two = step(LaunchState::Polling(4), LaunchEvent::ReadOk(second_read));
    assert_eq!(one, LaunchState::Done(8421));
    assert_eq!(two, LaunchState::Done(9001));
}
