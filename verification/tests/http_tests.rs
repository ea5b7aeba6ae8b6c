use sniproxy::http::{
    extract_host_header, find_headers_end, host_port_split, parse_port, scan_header_block,
    HttpError,
};

#[test]
fn test_find_headers_end_simple() {
    let buffer = b"GET / HTTP/1.1\r\nHost: example.com\r\n\r\n";
    assert_eq!(find_headers_end(buffer), Some(buffer.len()));
}

#[test]
fn test_find_headers_end_with_body() {
    let buffer = b"POST / HTTP/1.1\r\nHost: example.com\r\n\r\nBody data here";
    let headers_end = find_headers_end(buffer).unwrap();
    assert_eq!(
        &buffer[..headers_end],
        b"POST / HTTP/1.1\r\nHost: example.com\r\n\r\n"
    );
}

#[test]
fn test_find_headers_end_no_end() {
    let buffer = b"GET / HTTP/1.1\r\nHost: example.com\r\n";
    assert_eq!(find_headers_end(buffer), None);
}

#[test]
fn test_find_headers_end_too_short() {
    let buffer = b"GET";
    assert_eq!(find_headers_end(buffer), None);
}

#[test]
fn test_extract_host_header_simple() {
    let headers = b"GET / HTTP/1.1\r\nHost: example.com\r\n\r\n";
    assert_eq!(
        extract_host_header(headers),
        Some("example.com".to_string())
    );
}

#[test]
fn test_extract_host_header_with_port() {
    let headers = b"GET / HTTP/1.1\r\nHost: example.com:8080\r\n\r\n";
    assert_eq!(
        extract_host_header(headers),
        Some("example.com:8080".to_string())
    );
}

#[test]
fn test_extract_host_header_with_whitespace() {
    let headers = b"GET / HTTP/1.1\r\nHost:   example.com   \r\n\r\n";
    assert_eq!(
        extract_host_header(headers),
        Some("example.com".to_string())
    );
}

#[test]
fn test_extract_host_header_case_insensitive() {
    let headers = b"GET / HTTP/1.1\r\nHOST: example.com\r\n\r\n";
    assert_eq!(
        extract_host_header(headers),
        Some("example.com".to_string())
    );

    let headers2 = b"GET / HTTP/1.1\r\nhOsT: example.com\r\n\r\n";
    assert_eq!(
        extract_host_header(headers2),
        Some("example.com".to_string())
    );
}

#[test]
fn test_extract_host_header_missing() {
    let headers = b"GET / HTTP/1.1\r\nUser-Agent: Test\r\n\r\n";
    assert_eq!(extract_host_header(headers), None);
}

#[test]
fn test_extract_host_header_multiple_headers() {
    let headers =
        b"GET / HTTP/1.1\r\nUser-Agent: Test\r\nHost: example.com\r\nAccept: */*\r\n\r\n";
    assert_eq!(
        extract_host_header(headers),
        Some("example.com".to_string())
    );
}

#[test]
fn test_extract_host_header_invalid_utf8() {
    let headers = b"GET / HTTP/1.1\r\nHost: \xFF\xFE\r\n\r\n";
    assert_eq!(extract_host_header(headers), None);
}

#[test]
fn test_http_error_display() {
    assert_eq!(HttpError::NoHostHeader.message(), "No Host header found");
    assert_eq!(HttpError::InvalidRequest.message(), "Invalid HTTP request");
    assert_eq!(HttpError::Timeout.message(), "Operation timed out");
    assert_eq!(
        HttpError::WebSocketUpgradeFailed.message(),
        "WebSocket upgrade failed"
    );
    assert_eq!(
        HttpError::Http2FrameError.message(),
        "HTTP/2 frame parsing error"
    );
    assert_eq!(
        HttpError::GrpcDetectionFailed.message(),
        "gRPC detection failed"
    );
}

#[test]
fn test_http_error_from_io() {
    let io_error = std::io::Error::new(std::io::ErrorKind::ConnectionRefused, "test");
    let http_error: HttpError = io_error.into();
    assert!(matches!(http_error, HttpError::Io(_)));
}

#[test]
fn test_scan_header_block_complete() {
    // the reader yields the trimmed Host value and the block length
    let buffer = b"GET / HTTP/1.1\r\nHost: example.com\r\n\r\ntrailing body";
    let (host, consumed) = scan_header_block(buffer).unwrap().unwrap();
    assert_eq!(host, "example.com");
    assert_eq!(consumed, b"GET / HTTP/1.1\r\nHost: example.com\r\n\r\n".len());
}

#[test]
fn test_scan_header_block_incomplete() {
    let buffer = b"GET / HTTP/1.1\r\nHost: exam";
    assert!(matches!(scan_header_block(buffer), Ok(None)));
}

#[test]
fn test_scan_header_block_no_host() {
    let buffer = b"GET / HTTP/1.1\r\nAccept: */*\r\n\r\n";
    assert!(matches!(
        scan_header_block(buffer),
        Err(HttpError::NoHostHeader)
    ));
}

#[test]
fn test_scan_header_block_oversized() {
    let mut buffer = b"GET / HTTP/1.1\r\nX-Filler: ".to_vec();
    buffer.extend(std::iter::repeat(b'x').take(40000));
    assert!(matches!(
        scan_header_block(&buffer),
        Err(HttpError::InvalidRequest)
    ));
}

#[test]
fn test_host_port_split() {
    assert_eq!(host_port_split("example.com:8080"), Some((11, 8080)));
    assert_eq!(host_port_split("example.com"), None);
    // a non-numeric suffix after the last colon is no port
    assert_eq!(host_port_split("example.com:http"), None);
    // out-of-range ports are refused
    assert_eq!(host_port_split("example.com:70000"), None);
}

#[test]
fn test_parse_port() {
    assert_eq!(parse_port(b"80"), Some(80));
    assert_eq!(parse_port(b"65535"), Some(65535));
    assert_eq!(parse_port(b"65536"), None);
    assert_eq!(parse_port(b"00080"), Some(80));
    assert_eq!(parse_port(b""), None);
    assert_eq!(parse_port(b"8a"), None);
}
