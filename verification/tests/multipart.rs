use http_message::err::HttpErrorKind;
use http_message::multipart::{
    find_content_start, multipart_distribution, parse_multipart_boundary, parse_multipart_parts,
    part_file_name, MultipartDistribution,
};

fn two_part_body() -> Vec<u8> {
    let mut body = Vec::new();
    body.extend_from_slice(b"--XYZ\r\n");
    body.extend_from_slice(b"Content-Disposition: form-data; name=\"a\"\r\n");
    body.extend_from_slice(b"Content-Type: text/plain\r\n\r\n");
    body.extend_from_slice(b"first");
    body.extend_from_slice(b"\r\n--XYZ\r\n");
    body.extend_from_slice(b"Content-Disposition: form-data; name=\"b\"\r\n\r\n");
    body.extend_from_slice(b"second\x00\xff");
    body.extend_from_slice(b"\r\n--XYZ--");
    body
}

#[test]
fn boundary_is_extracted() {
    let head = b"POST / HTTP/1.1\r\nContent-Type: multipart/form-data; boundary=XYZ\r\n\r\n";
    assert_eq!(parse_multipart_boundary(head).unwrap(), "XYZ");
}

#[test]
fn boundary_ends_at_semicolon_or_line_end() {
    assert_eq!(parse_multipart_boundary(b"boundary=ab;c\r\n").unwrap(), "ab");
    assert_eq!(parse_multipart_boundary(b"boundary=ab\nrest").unwrap(), "ab");
    assert_eq!(parse_multipart_boundary(b"x boundary=a b\r").unwrap(), "a b");
    assert_eq!(parse_multipart_boundary(b"boundary=\r\n").unwrap(), "");
}

#[test]
fn boundary_takes_the_first_marker() {
    assert_eq!(parse_multipart_boundary(b"bounboundary=one;boundary=two;").unwrap(), "one");
}

#[test]
fn boundary_missing_marker_is_not_found() {
    for head in [&b""[..], b"boundary", b"Content-Type: multipart/form-data\r\n\r\n", b"Boundary=x;"] {
        let e = parse_multipart_boundary(head).unwrap_err();
        assert_eq!(e.kind, HttpErrorKind::BoundaryNotFound);
        assert_eq!(e.msg, None);
    }
}

#[test]
fn boundary_running_out_of_bytes_is_not_found() {
    for head in [&b"boundary="[..], b"boundary=XYZ"] {
        let e = parse_multipart_boundary(head).unwrap_err();
        assert_eq!(e.kind, HttpErrorKind::BoundaryNotFound);
    }
}

#[test]
fn boundary_that_is_not_utf8_is_rejected() {
    let e = parse_multipart_boundary(b"boundary=\xff\xfe;").unwrap_err();
    assert_eq!(e.kind, HttpErrorKind::InvalidEncoding);
}

#[test]
fn distribution_of_two_parts() {
    let body = two_part_body();
    let d = multipart_distribution(&body, b"XYZ");
    assert_eq!(d.boundary_len, 3);
    assert_eq!(d.boundary_indexes.len(), 2);
    assert_eq!(d.boundary_indexes[0], 2);
    assert_eq!(&body[d.boundary_indexes[0]..d.boundary_indexes[0] + 3], b"XYZ");
    assert_eq!(&body[d.boundary_indexes[1]..d.boundary_indexes[1] + 3], b"XYZ");
    assert!(d.boundary_indexes[0] < d.boundary_indexes[1]);
}

#[test]
fn distribution_without_parts_is_empty() {
    assert_eq!(multipart_distribution(b"no boundary here", b"XYZ").boundary_indexes, Vec::<usize>::new());
    assert_eq!(multipart_distribution(b"--XYZ--", b"XYZ").boundary_indexes, Vec::<usize>::new());
    assert_eq!(multipart_distribution(b"", b"XYZ").boundary_indexes, Vec::<usize>::new());
    assert_eq!(multipart_distribution(b"abc", b"").boundary_indexes, Vec::<usize>::new());
    assert_eq!(multipart_distribution(b"abc", b"").boundary_len, 0);
}

#[test]
fn distribution_matches_do_not_overlap() {
    let d = multipart_distribution(b"aaaaaaa", b"aa");
    assert_eq!(d.boundary_indexes, vec![0, 2]);
    let d = multipart_distribution(b"abXabXab", b"ab");
    assert_eq!(d.boundary_indexes, vec![0, 3]);
}

#[test]
fn content_start_follows_the_blank_line() {
    let block = b"A: 1\r\nB: 2\r\n\r\ncontent";
    assert_eq!(find_content_start(block, 0), Some(14));
    assert_eq!(&block[14..], b"content");
    assert_eq!(find_content_start(b"A: 1\r\n\r\n", 0), Some(8));
    assert_eq!(find_content_start(b"A: 1\r\n\r", 0), None);
    assert_eq!(find_content_start(b"A: 1\r\nB: 2", 0), None);
    assert_eq!(find_content_start(b"A: 1", 0), None);
    assert_eq!(find_content_start(b"A: 1", 4), None);
    assert_eq!(find_content_start(b"A: 1", 400), None);
}

#[test]
fn parts_of_two_part_body() {
    let body = two_part_body();
    let d = multipart_distribution(&body, b"XYZ");
    let files = parse_multipart_parts(&body, d).unwrap();
    assert_eq!(files.len(), 2);
    assert_eq!(files[0].name, "imported_file_0");
    assert_eq!(files[1].name, "imported_file_1");
    assert_eq!(files[0].content, b"first\r\n--");
    assert_eq!(files[1].content, b"second\x00\xff\r\n--XYZ--");
}

#[test]
fn parts_are_the_same_on_every_run() {
    let body = two_part_body();
    let first = parse_multipart_parts(&body, multipart_distribution(&body, b"XYZ")).unwrap();
    let second = parse_multipart_parts(&body, multipart_distribution(&body, b"XYZ")).unwrap();
    assert_eq!(first, second);
}

#[test]
fn parts_of_empty_distribution_are_none() {
    let d = MultipartDistribution { boundary_indexes: vec![], boundary_len: 3 };
    assert_eq!(parse_multipart_parts(b"anything", d).unwrap(), vec![]);
}

#[test]
fn parts_with_unfinished_header_block_fail() {
    let body = b"--XYZ\r\nA: 1\r\ncontent without blank line --XYZ--";
    let d = multipart_distribution(body, b"XYZ");
    assert_eq!(d.boundary_indexes.len(), 1);
    let e = parse_multipart_parts(body, d).unwrap_err();
    assert_eq!(e.kind, HttpErrorKind::MalformedHeader);
    assert_eq!(e.msg, None);
}

#[test]
fn parts_with_offsets_out_of_range_fail() {
    for d in [
        MultipartDistribution { boundary_indexes: vec![100], boundary_len: 3 },
        MultipartDistribution { boundary_indexes: vec![usize::MAX], boundary_len: 3 },
        MultipartDistribution { boundary_indexes: vec![0], boundary_len: usize::MAX },
        MultipartDistribution { boundary_indexes: vec![0, 400], boundary_len: 1 },
    ] {
        let e = parse_multipart_parts(b"-\r\nA: 1\r\n\r\nx", d).unwrap_err();
        assert_eq!(e.kind, HttpErrorKind::MalformedHeader);
    }
}

#[test]
fn parts_whose_header_block_ends_behind_the_part_fail() {
    let body = b"X\r\nA: 1\r\nX\r\nB: 2\r\n\r\nbX";
    let d = multipart_distribution(body, b"X");
    assert_eq!(d.boundary_indexes, vec![0, 9]);
    let e = parse_multipart_parts(body, d).unwrap_err();
    assert_eq!(e.kind, HttpErrorKind::MalformedHeader);
}

#[test]
fn part_file_names_are_numbered() {
    assert_eq!(part_file_name(0), "imported_file_0");
    assert_eq!(part_file_name(9), "imported_file_9");
    assert_eq!(part_file_name(10), "imported_file_10");
    assert_eq!(part_file_name(1234567), "imported_file_1234567");
}
