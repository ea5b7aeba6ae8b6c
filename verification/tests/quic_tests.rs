use sniproxy::quic::{
    configure_quic_transport, detect_udp_protocol, extract_quic_sni, handle_0rtt_data, QuicConfig,
    QuicHandler, UdpProtocol,
};

#[test]
fn test_quic_sni_extraction_too_small() {
    let small_packet = vec![0xC0; 10];
    let result = extract_quic_sni(&small_packet);
    assert!(result.is_err());
    assert!(result.unwrap_err().message().contains("too small"));
}

#[test]
fn test_quic_sni_extraction_not_long_header() {
    // Short header packet (bit 7 = 0)
    let short_header = vec![0x40; 50];
    let result = extract_quic_sni(&short_header);
    assert!(result.is_err());
    assert!(result
        .unwrap_err()
        .message()
        .contains("Not a QUIC long header"));
}

#[test]
fn test_quic_sni_extraction_truncated() {
    // Long header but truncated
    let truncated = vec![0xC0, 0x00, 0x00, 0x00, 0x01];
    let result = extract_quic_sni(&truncated);
    assert!(result.is_err());
}

#[test]
fn test_quic_sni_extraction_no_sni() {
    // Valid QUIC structure but no SNI
    let mut packet = vec![
        0xC0, // Long header
        0x00, 0x00, 0x00, 0x01, // Version
        0x08, // DCID Length = 8
    ];
    packet.extend_from_slice(&[0; 8]); // DCID
    packet.push(0x00); // SCID Length = 0
    packet.push(0x00); // Token Length = 0
    packet.extend_from_slice(&[0x00, 0x10]); // Length field
    packet.extend_from_slice(&[0; 50]); // Payload without TLS

    let result = extract_quic_sni(&packet);
    assert!(result.is_err());
    assert!(result.unwrap_err().message().contains("No valid SNI"));
}

#[test]
fn test_quic_sni_extraction_with_embedded_hello() {
    // a QUIC Initial whose payload embeds a ClientHello
    let hello = sniproxy::tls::build_client_hello(b"quic.example.com", Some(b"h3"));
    let mut packet = vec![
        0xC0, // Long header
        0x00, 0x00, 0x00, 0x01, // Version
        0x04, // DCID Length = 4
    ];
    packet.extend_from_slice(&[1, 2, 3, 4]); // DCID
    packet.push(0x00); // SCID Length = 0
    packet.push(0x00); // Token Length = 0
    packet.extend_from_slice(&[0x00, 0x10]); // Length field
    packet.extend_from_slice(&hello);

    let sni = extract_quic_sni(&packet).unwrap();
    assert_eq!(sni, "quic.example.com");
}

#[test]
fn test_protocol_detection_quic_long_header() {
    // QUIC long header (bit 7 set)
    let quic_packet = vec![0xC0, 0x00, 0x00, 0x00, 0x01];
    assert_eq!(detect_udp_protocol(&quic_packet), UdpProtocol::Quic);
}

#[test]
fn test_protocol_detection_non_quic() {
    // Not a QUIC packet (bit 7 not set)
    let non_quic_packet = vec![0x40, 0x00, 0x00, 0x00, 0x01];
    assert_eq!(detect_udp_protocol(&non_quic_packet), UdpProtocol::Unknown);
}

#[test]
fn test_protocol_detection_empty() {
    let empty_packet = vec![];
    assert_eq!(detect_udp_protocol(&empty_packet), UdpProtocol::Unknown);
}

#[test]
fn test_quic_config_default() {
    let config = QuicConfig::default();
    assert_eq!(config.max_concurrent_streams, 100);
    assert_eq!(config.idle_timeout, 60);
    assert!(config.enable_0rtt);
}

#[test]
fn test_quic_handler_creation() {
    let config = QuicConfig::default();
    let _handler = QuicHandler::new(config);
    // Handler created successfully (placeholder)
}

#[test]
fn test_configure_quic_transport() {
    let config = QuicConfig::default();
    let result = configure_quic_transport(&config);
    assert!(result.is_ok());
}

#[test]
fn test_0rtt_placeholder() {
    let data = b"test data";
    let result = handle_0rtt_data(data);
    assert!(result.is_err());
    assert!(result
        .unwrap_err()
        .contains("0-RTT resumption not yet implemented"));
}

#[test]
fn test_connection_handler_placeholder() {
    let config = QuicConfig::default();
    let handler = QuicHandler::new(config);

    let result = handler.handle_connection(());

    assert!(result.is_err());
    assert!(result
        .unwrap_err()
        .contains("Full QUIC connection handling not yet implemented"));
}
