use pollserve::connection::{Action, Connection, IoEvent, Outcome, IO_CHUNK, REQUEST_CAPACITY};
use pollserve::response::RESPONSE_LEN;

fn data(bytes: &[u8]) -> IoEvent {
    IoEvent::DataRead { data: bytes.to_vec() }
}

#[test]
fn fresh_connection_reads_a_full_chunk() {
    let c = Connection::new();
    assert!(c.is_reading());
    assert_eq!(c.bytes_read(), 0);
    assert_eq!(c.next_action(), Action::Read { max: IO_CHUNK });
}

#[test]
fn phase_progression_one_byte_chunks() {
    let mut c = Connection::new();
    let request = b"GET /\r\n\r\n";
    for (i, b) in request.iter().enumerate() {
        assert!(c.is_reading());
        assert_eq!(c.bytes_read(), i);
        let ev = data(&[*b]);
        assert!(c.accepts(&ev));
        assert_eq!(c.advance(ev), Outcome::Pending);
    }
    assert!(c.is_writing());
    assert_eq!(c.bytes_written(), 0);

    let mut written = 0;
    while written < RESPONSE_LEN {
        assert!(c.is_writing());
        match c.next_action() {
            Action::Write { start, end } => {
                assert_eq!(start, written);
                assert!(end - start <= IO_CHUNK);
                let ev = IoEvent::BytesWritten { count: end - start };
                assert!(c.accepts(&ev));
                assert_eq!(c.advance(ev), Outcome::Pending);
                written = end;
            },
            other => panic!("expected a write action, got {:?}", other),
        }
    }
    assert!(c.is_flushing());
    assert_eq!(c.next_action(), Action::Flush);
    assert!(c.accepts(&IoEvent::Flushed));
    assert_eq!(c.advance(IoEvent::Flushed), Outcome::Finished);
}

#[test]
fn would_block_changes_nothing_in_any_phase() {
    let mut c = Connection::new();
    assert_eq!(c.advance(data(b"GE")), Outcome::Pending);
    let before = c.clone();
    assert_eq!(c.advance(IoEvent::WouldBlock), Outcome::Pending);
    assert_eq!(c, before);

    assert_eq!(c.advance(data(b"T\r\n")), Outcome::Pending);
    assert_eq!(c.advance(data(b"\r\n")), Outcome::Pending);
    assert!(c.is_writing());
    let before = c.clone();
    assert_eq!(c.advance(IoEvent::WouldBlock), Outcome::Pending);
    assert_eq!(c, before);

    let mut written = 0;
    while written < RESPONSE_LEN {
        let count = (RESPONSE_LEN - written).min(IO_CHUNK);
        assert_eq!(c.advance(IoEvent::BytesWritten { count }), Outcome::Pending);
        written += count;
    }
    assert!(c.is_flushing());
    let before = c.clone();
    assert_eq!(c.advance(IoEvent::WouldBlock), Outcome::Pending);
    assert_eq!(c, before);
}

#[test]
fn early_close_finishes_without_response() {
    let mut c = Connection::new();
    assert_eq!(c.advance(data(b"GET")), Outcome::Pending);
    assert!(c.is_reading());
    assert_eq!(c.advance(IoEvent::Closed), Outcome::Finished);
    assert!(c.is_reading());
}

#[test]
fn close_while_writing_finishes() {
    let mut c = Connection::new();
    assert_eq!(c.advance(data(b"\r\n\r\n")), Outcome::Pending);
    assert!(c.is_writing());
    assert_eq!(c.advance(IoEvent::Closed), Outcome::Finished);
}

#[test]
fn io_error_fails_the_connection() {
    let mut c = Connection::new();
    assert_eq!(c.advance(IoEvent::IoFailed), Outcome::Failed);

    let mut c = Connection::new();
    assert_eq!(c.advance(data(b"\r\n\r\n")), Outcome::Pending);
    assert!(c.is_writing());
    assert_eq!(c.advance(IoEvent::IoFailed), Outcome::Failed);
}

#[test]
fn oversized_request_is_rejected() {
    let mut c = Connection::new();
    let chunk = [b'a'; 5];
    for _ in 0..(REQUEST_CAPACITY / 5) {
        assert_eq!(c.advance(data(&chunk)), Outcome::Pending);
    }
    assert_eq!(c.bytes_read(), REQUEST_CAPACITY - 4);
    assert_eq!(c.next_action(), Action::Read { max: 4 });
    assert_eq!(c.advance(data(b"aaaa")), Outcome::Failed);
}

#[test]
fn read_window_shrinks_near_capacity() {
    let mut c = Connection::new();
    let chunk = [b'a'; 5];
    for _ in 0..(REQUEST_CAPACITY / 5) {
        assert_eq!(c.advance(data(&chunk)), Outcome::Pending);
    }
    assert_eq!(c.advance(data(b"aa")), Outcome::Pending);
    assert_eq!(c.next_action(), Action::Read { max: 2 });
}

#[test]
fn write_window_is_capped_and_clipped() {
    let mut c = Connection::new();
    assert_eq!(c.advance(data(b"\r\n\r\n")), Outcome::Pending);
    assert_eq!(c.next_action(), Action::Write { start: 0, end: 5 });
    for _ in 0..13 {
        assert_eq!(c.advance(IoEvent::BytesWritten { count: 5 }), Outcome::Pending);
    }
    assert_eq!(c.bytes_written(), 65);
    assert_eq!(c.next_action(), Action::Write { start: 65, end: RESPONSE_LEN });
    assert_eq!(c.advance(IoEvent::BytesWritten { count: 4 }), Outcome::Pending);
    assert!(c.is_flushing());
}

#[test]
fn partial_writes_accumulate() {
    let mut c = Connection::new();
    assert_eq!(c.advance(data(b"\r\n\r\n")), Outcome::Pending);
    assert_eq!(c.advance(IoEvent::BytesWritten { count: 2 }), Outcome::Pending);
    assert_eq!(c.bytes_written(), 2);
    assert_eq!(c.next_action(), Action::Write { start: 2, end: 7 });
}

#[test]
fn incompatible_events_are_refused() {
    let c = Connection::new();
    assert!(!c.accepts(&IoEvent::BytesWritten { count: 1 }));
    assert!(!c.accepts(&IoEvent::Flushed));
    assert!(!c.accepts(&data(b"")));
    assert!(!c.accepts(&data(b"toolong")));
    assert!(c.accepts(&IoEvent::WouldBlock));
    assert!(c.accepts(&IoEvent::Closed));
    assert!(c.accepts(&IoEvent::IoFailed));

    let mut c = Connection::new();
    assert_eq!(c.advance(data(b"\r\n\r\n")), Outcome::Pending);
    assert!(!c.accepts(&data(b"x")));
    assert!(c.accepts(&IoEvent::BytesWritten { count: 5 }));
    assert!(!c.accepts(&IoEvent::BytesWritten { count: 0 }));
    assert!(!c.accepts(&IoEvent::BytesWritten { count: 6 }));
}

#[test]
fn terminator_split_across_chunks_is_found() {
    let mut c = Connection::new();
    assert_eq!(c.advance(data(b"GET \r")), Outcome::Pending);
    assert_eq!(c.advance(data(b"\n\r")), Outcome::Pending);
    assert!(c.is_reading());
    assert_eq!(c.advance(data(b"\n")), Outcome::Pending);
    assert!(c.is_writing());
}

#[test]
fn terminator_buried_mid_chunk_is_not_found() {
    let mut c = Connection::new();
    assert_eq!(c.advance(data(b"\r\n\r\nx")), Outcome::Pending);
    assert!(c.is_reading());
    assert_eq!(c.bytes_read(), 5);
}
