use http_message::scanner::{ends_with_bytes, take_til, take_til_step};
use http_message::search::{find_in, occurs_at};

#[test]
fn scanner_stops_after_the_terminator() {
    assert_eq!(take_til(b"GET / HTTP/1.1\r\n\r\nbody", b"\r\n\r\n"), b"GET / HTTP/1.1\r\n\r\n");
    assert_eq!(take_til(b"ab--XYZ--tail", b"XYZ--"), b"ab--XYZ--");
    assert_eq!(take_til(b"aXbX", b"X"), b"aX");
}

#[test]
fn scanner_returns_everything_without_terminator() {
    assert_eq!(take_til(b"no end here", b"\r\n\r\n"), b"no end here");
    assert_eq!(take_til(b"", b"\r\n"), b"");
    assert_eq!(take_til(b"\r", b"\r\n"), b"\r");
}

#[test]
fn scanner_handles_overlapping_terminator() {
    assert_eq!(take_til(b"aaab-rest", b"aab"), b"aaab");
    assert_eq!(take_til(b"\r\n\r\r\n\r\nx", b"\r\n\r\n"), b"\r\n\r\r\n\r\n");
}

#[test]
fn scanner_with_empty_terminator_reads_one_byte() {
    assert_eq!(take_til(b"abc", b""), b"a");
    assert_eq!(take_til(b"", b""), b"");
}

#[test]
fn scanner_step_by_step() {
    let mut buf = Vec::new();
    assert!(!take_til_step(&mut buf, b"\n\n", Some(b'a')));
    assert!(!take_til_step(&mut buf, b"\n\n", Some(b'\n')));
    assert!(take_til_step(&mut buf, b"\n\n", Some(b'\n')));
    assert_eq!(buf, b"a\n\n");
    let mut short = vec![b'x'];
    assert!(take_til_step(&mut short, b"\n\n", None));
    assert_eq!(short, b"x");
}

#[test]
fn ends_with_compares_the_tail() {
    assert!(ends_with_bytes(b"abc", b"bc"));
    assert!(ends_with_bytes(b"abc", b"abc"));
    assert!(ends_with_bytes(b"abc", b""));
    assert!(!ends_with_bytes(b"abc", b"ab"));
    assert!(!ends_with_bytes(b"bc", b"abc"));
}

#[test]
fn find_returns_the_first_match() {
    assert_eq!(find_in(b"abcabc", b"bc", 0), Some(1));
    assert_eq!(find_in(b"abcabc", b"bc", 1), Some(1));
    assert_eq!(find_in(b"abcabc", b"bc", 2), Some(4));
    assert_eq!(find_in(b"abcabc", b"bc", 5), None);
    assert_eq!(find_in(b"abcabc", b"bc", 50), None);
    assert_eq!(find_in(b"abc", b"abcd", 0), None);
    assert_eq!(find_in(b"abc", b"", 3), Some(3));
    assert_eq!(find_in(b"abc", b"", 4), None);
    assert_eq!(find_in(&['a', ':', ' ', 'b'], &[':', ' '], 0), Some(1));
}

#[test]
fn occurs_at_checks_one_place() {
    assert!(occurs_at(b"abc", b"bc", 1));
    assert!(!occurs_at(b"abc", b"bc", 0));
    assert!(!occurs_at(b"abc", b"bc", 2));
    assert!(!occurs_at(b"abc", b"bc", usize::MAX));
}
