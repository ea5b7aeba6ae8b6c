use sniproxy::classifier::{detect_http_version, detect_protocol, refine_tls_protocol, Protocol};

#[test]
fn test_classifier_http11() {
    assert_eq!(detect_protocol(b"GET / HTTP/1.1\r\n"), Protocol::Http11);
    assert_eq!(
        detect_protocol(b"POST /api/data HTTP/1.1\r\nHost: x\r\n"),
        Protocol::Http11
    );
}

#[test]
fn test_classifier_http10() {
    assert_eq!(
        detect_protocol(b"GET / HTTP/1.0\r\nHost: example.com\r\n"),
        Protocol::Http10
    );
}

#[test]
fn test_classifier_http2_preface() {
    assert_eq!(
        detect_protocol(b"PRI * HTTP/2.0\r\n\r\nSM\r\n\r\n"),
        Protocol::Http2Cleartext
    );
}

#[test]
fn test_classifier_tls() {
    assert_eq!(detect_protocol(&[0x16, 0x03, 0x03, 0x00, 0x10]), Protocol::Tls);
}

#[test]
fn test_classifier_ssh() {
    assert_eq!(detect_protocol(b"SSH-2.0-OpenSSH_8.2p1"), Protocol::Ssh);
}

#[test]
fn test_classifier_unknown() {
    assert_eq!(detect_protocol(&[0x00, 0x01, 0x02, 0x03]), Protocol::Unknown);
    assert_eq!(detect_protocol(&[]), Protocol::Unknown);
}

#[test]
fn test_classifier_method_without_newline() {
    // a method with no line terminator in the peeked bytes defaults to 1.1
    assert_eq!(detect_protocol(b"GET / HT"), Protocol::Http11);
}

#[test]
fn test_detect_http_version() {
    assert_eq!(detect_http_version(b"GET / HTTP/1.0\r"), Protocol::Http10);
    assert_eq!(detect_http_version(b"GET / HTTP/1.1\r"), Protocol::Http11);
    // an undecipherable line defaults to 1.1
    assert_eq!(detect_http_version(b"GET /"), Protocol::Http11);
}

#[test]
fn test_refine_tls_protocol() {
    assert_eq!(
        refine_tls_protocol(&Some("h2".to_string())),
        Protocol::Http2Tls
    );
    assert_eq!(
        refine_tls_protocol(&Some("h3".to_string())),
        Protocol::Http3Tls
    );
    assert_eq!(
        refine_tls_protocol(&Some("h3-29".to_string())),
        Protocol::Http3Tls
    );
    assert_eq!(
        refine_tls_protocol(&Some("h3-32".to_string())),
        Protocol::Http3Tls
    );
    assert_eq!(
        refine_tls_protocol(&Some("http/1.1".to_string())),
        Protocol::Tls
    );
    assert_eq!(refine_tls_protocol(&None), Protocol::Tls);
}

#[test]
fn test_protocol_labels_and_ports() {
    assert_eq!(Protocol::Http10.as_str(), "http1.0");
    assert_eq!(Protocol::Http11.as_str(), "http1.1");
    assert_eq!(Protocol::Http2Cleartext.as_str(), "h2c");
    assert_eq!(Protocol::Tls.as_str(), "tls");
    assert_eq!(Protocol::Unknown.as_str(), "unknown");

    assert_eq!(Protocol::Http11.default_port(), 80);
    assert_eq!(Protocol::Http2Cleartext.default_port(), 80);
    assert_eq!(Protocol::Tls.default_port(), 443);
    assert_eq!(Protocol::Http2Tls.default_port(), 443);
    assert_eq!(Protocol::Ssh.default_port(), 22);
    assert_eq!(Protocol::Unknown.default_port(), 0);

    assert!(Protocol::Tls.is_tls());
    assert!(Protocol::Http2Tls.is_tls());
    assert!(!Protocol::Http11.is_tls());

    assert!(Protocol::Http11.is_http());
    assert!(Protocol::Http2Cleartext.is_http());
    assert!(!Protocol::Ssh.is_http());
    assert!(!Protocol::Unknown.is_http());
}
