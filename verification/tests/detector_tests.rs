use pollserve::detector::detect;
use pollserve::response::{canned_response, RESPONSE_LEN};

#[test]
fn terminator_alone_is_detected() {
    let buf = vec![13u8, 10, 13, 10];
    assert!(detect(&buf, 4));
}

#[test]
fn short_prefix_is_never_terminated() {
    let buf = vec![13u8, 10, 13];
    assert!(!detect(&buf, 0));
    assert!(!detect(&buf, 1));
    assert!(!detect(&buf, 2));
    assert!(!detect(&buf, 3));
}

#[test]
fn request_ending_in_terminator_is_detected() {
    let buf = b"GET / HTTP/1.1\r\n\r\n".to_vec();
    assert!(detect(&buf, buf.len()));
}

#[test]
fn terminator_not_at_end_of_prefix_is_not_detected() {
    let buf = b"ab\r\n\r\nc".to_vec();
    assert!(!detect(&buf, 7));
    assert!(detect(&buf, 6));
}

#[test]
fn detection_looks_only_at_the_valid_prefix() {
    let buf = b"x\r\n\r\nzzzz".to_vec();
    assert!(detect(&buf, 5));
    assert!(!detect(&buf, 9));
}

#[test]
fn almost_terminator_is_not_detected() {
    let buf = vec![10u8, 13, 10, 13];
    assert!(!detect(&buf, 4));
    let buf = vec![13u8, 10, 13, 13];
    assert!(!detect(&buf, 4));
}

#[test]
fn canned_response_bytes_are_exact() {
    let expected = b"HTTP/1.1 200 OK\r\nContent-Length: 12\nConnection: close\r\n\r\nHello world!"
        .to_vec();
    assert_eq!(canned_response(), expected);
    assert_eq!(canned_response().len(), RESPONSE_LEN);
    assert_eq!(RESPONSE_LEN, 69);
}
