use exarch::request::{
    parse_request, read_request, validate_scheme, FramingError, ReadStatus, RequestError,
    RequestReader, RequestUrl, MAX_REQUEST_LENGTH, MAX_URL_LENGTH,
};

const UNEXPECTED_END: RequestError = RequestError::Framing(FramingError::UnexpectedEnd);

const TOO_LONG: RequestError = RequestError::Framing(FramingError::TooLong);

fn segments(parts: &[&str]) -> Option<Vec<String>> {
    Some(parts.iter().map(|part| part.to_string()).collect())
}

fn url_of_length(length: usize) -> Vec<u8> {
    let mut url = b"gemini://example.org/".to_vec();
    while url.len() < length {
        url.push(b'a');
    }
    url
}

#[test]
fn request_in_one_read() {
    let url = read_request(&[b"gemini://example.org/docs/a.md\r\n".to_vec()]).unwrap();
    assert_eq!(url.scheme, "gemini");
    assert_eq!(url.path_segments, segments(&["docs", "a.md"]));
}

#[test]
fn request_spread_over_reads() {
    let reads = vec![
        b"gemini://exam".to_vec(),
        b"ple.org/docs/".to_vec(),
        b"a.md\r".to_vec(),
        b"\n".to_vec(),
    ];
    let url = read_request(&reads).unwrap();
    assert_eq!(url.scheme, "gemini");
    assert_eq!(url.path_segments, segments(&["docs", "a.md"]));
}

#[test]
fn reads_after_the_end_of_the_line_are_left() {
    let first = b"gemini://example.org/a\r\n".to_vec();
    let reads = vec![first.clone(), b"gemini://example.org/b\r\n".to_vec()];
    let url = read_request(&reads).unwrap();
    assert_eq!(url.path_segments, segments(&["a"]));
    let url = read_request(&[first, Vec::new()]).unwrap();
    assert_eq!(url.path_segments, segments(&["a"]));
}

#[test]
fn connection_that_ends_early_fails() {
    assert_eq!(read_request(&[]), Err(UNEXPECTED_END));
    for cut_short in [&b"gemini://example.org/"[..], b"gemini://example.org/\r", b"gemini://x/\n"] {
        assert_eq!(read_request(&[cut_short.to_vec()]), Err(UNEXPECTED_END));
    }
}

#[test]
fn empty_read_is_the_end_of_the_connection() {
    let reads = vec![b"gemini://example.org/".to_vec(), Vec::new(), b"\r\n".to_vec()];
    assert_eq!(read_request(&reads), Err(UNEXPECTED_END));
}

#[test]
fn terminator_is_sought_at_the_end_of_a_read() {
    // CR LF in the middle of what a read returned does not end the line.
    let reads = vec![b"gemini://example.org/\r\nmore".to_vec()];
    assert_eq!(read_request(&reads), Err(UNEXPECTED_END));
    let mut reader = RequestReader::new();
    assert_eq!(reader.feed(b"gemini://example.org/\r\nmore"), ReadStatus::Reading);
    assert_eq!(reader.feed(b"\r\n"), ReadStatus::Complete);
    assert_eq!(reader.request_line(), Some(&b"gemini://example.org/\r\nmore"[..]));
}

#[test]
fn longest_url_is_accepted() {
    let mut request = url_of_length(MAX_URL_LENGTH);
    assert_eq!(request.len(), 1024);
    request.extend_from_slice(b"\r\n");
    let url = read_request(&[request.clone()]).unwrap();
    assert_eq!(url.scheme, "gemini");
    assert_eq!(url.path_segments, segments(&[&"a".repeat(1024 - 21)]));

    let mut reader = RequestReader::new();
    assert_eq!(reader.capacity_left(), 1026);
    assert_eq!(reader.feed(&request[..1000]), ReadStatus::Reading);
    assert_eq!(reader.capacity_left(), 26);
    assert_eq!(reader.feed(&request[1000..]), ReadStatus::Complete);
    assert_eq!(reader.capacity_left(), 0);
    assert_eq!(reader.request_line(), Some(&request[..1024]));
}

#[test]
fn url_one_byte_too_long_is_rejected() {
    let mut request = url_of_length(MAX_URL_LENGTH + 1);
    request.extend_from_slice(b"\r\n");
    assert_eq!(request.len(), MAX_REQUEST_LENGTH + 1);
    assert_eq!(read_request(&[request.clone()]), Err(TOO_LONG));
    // Read into a buffer of the greatest length, the last byte does not arrive.
    let (head, tail) = request.split_at(MAX_REQUEST_LENGTH);
    let reads = vec![head.to_vec(), tail.to_vec()];
    assert_eq!(read_request(&reads), Err(TOO_LONG));
    let reads = vec![request[..1025].to_vec(), request[1025..].to_vec()];
    assert_eq!(read_request(&reads), Err(TOO_LONG));
}

#[test]
fn stream_without_terminator_fails() {
    let endless = vec![vec![b'a'; 400], vec![b'a'; 400], vec![b'a'; 226], vec![b'a'; 100]];
    assert_eq!(read_request(&endless), Err(TOO_LONG));
    let mut reader = RequestReader::new();
    assert_eq!(reader.feed(&[b'a'; 1025]), ReadStatus::Reading);
    assert_eq!(reader.feed(b"\r"), ReadStatus::Failed(FramingError::TooLong));
    assert_eq!(reader.feed(b"\n"), ReadStatus::Failed(FramingError::TooLong));
    assert_eq!(reader.request_line(), None);
}

#[test]
fn reader_starts_reading_and_keeps_its_outcome() {
    let mut reader = RequestReader::new();
    assert_eq!(reader.status(), ReadStatus::Reading);
    assert_eq!(reader.request_line(), None);
    assert_eq!(reader.feed(b"\r\n"), ReadStatus::Complete);
    assert_eq!(reader.feed(b"more"), ReadStatus::Complete);
    assert_eq!(reader.feed(b""), ReadStatus::Complete);
    assert_eq!(reader.status(), ReadStatus::Complete);
    assert_eq!(reader.request_line(), Some(&b""[..]));

    let mut reader = RequestReader::new();
    assert_eq!(reader.feed(b""), ReadStatus::Failed(FramingError::UnexpectedEnd));
    let failed = ReadStatus::Failed(FramingError::UnexpectedEnd);
    assert_eq!(reader.feed(b"gemini://example.org/\r\n"), failed);
    assert_eq!(reader.status(), ReadStatus::Failed(FramingError::UnexpectedEnd));
}

#[test]
fn request_that_is_not_utf8_is_rejected() {
    assert_eq!(parse_request(b"gemini://example.org/\xff"), Err(RequestError::InvalidUtf8));
    assert_eq!(parse_request(b"\xc3"), Err(RequestError::InvalidUtf8));
    assert_eq!(
        read_request(&[b"gemini://example.org/\xe2\x82\r\n".to_vec()]),
        Err(RequestError::InvalidUtf8)
    );
}

#[test]
fn request_that_is_no_url_is_rejected() {
    assert_eq!(parse_request(b""), Err(RequestError::InvalidUrl));
    assert_eq!(parse_request(b"/docs/a.md"), Err(RequestError::InvalidUrl));
    assert_eq!(parse_request(b"example.org/docs"), Err(RequestError::InvalidUrl));
    assert_eq!(read_request(&[b"\r\n".to_vec()]), Err(RequestError::InvalidUrl));
}

#[test]
fn other_schemes_are_rejected() {
    assert_eq!(parse_request(b"http://example.org/"), Err(RequestError::UnsupportedScheme));
    assert_eq!(parse_request(b"gopher://example.org/"), Err(RequestError::UnsupportedScheme));
    assert_eq!(parse_request(b"geminis://example.org/"), Err(RequestError::UnsupportedScheme));
    assert_eq!(
        read_request(&[b"https://example.org/a\r\n".to_vec()]),
        Err(RequestError::UnsupportedScheme)
    );
}

#[test]
fn url_is_read_by_its_parts() {
    let url = parse_request(b"GEMINI://example.org/").unwrap();
    assert_eq!(url.scheme, "gemini");
    assert_eq!(url.path_segments, segments(&[""]));
    let url = parse_request(b"gemini://example.org").unwrap();
    assert_eq!(url.path_segments, None);
    let url = parse_request("gemini://example.org/a b/ü?q#f".as_bytes()).unwrap();
    assert_eq!(url.path_segments, segments(&["a%20b", "%C3%BC"]));
    let url = parse_request(b"gemini:opaque").unwrap();
    assert_eq!(url.scheme, "gemini");
    assert_eq!(url.path_segments, None);
}

#[test]
fn missing_scheme_becomes_gemini() {
    let bare = RequestUrl { scheme: String::new(), path_segments: segments(&["a", "b"]) };
    assert_eq!(
        validate_scheme(bare),
        Ok(RequestUrl { scheme: "gemini".to_string(), path_segments: segments(&["a", "b"]) })
    );
}

#[test]
fn scheme_is_judged() {
    let gemini = RequestUrl { scheme: "gemini".to_string(), path_segments: None };
    assert_eq!(
        validate_scheme(gemini),
        Ok(RequestUrl { scheme: "gemini".to_string(), path_segments: None })
    );
    let http = RequestUrl { scheme: "http".to_string(), path_segments: segments(&["a"]) };
    assert_eq!(validate_scheme(http), Err(RequestError::UnsupportedScheme));
    let upper = RequestUrl { scheme: "Gemini".to_string(), path_segments: None };
    assert_eq!(validate_scheme(upper), Err(RequestError::UnsupportedScheme));
}
