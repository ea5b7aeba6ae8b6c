use sniproxy::websocket::{CompressionStats, WebSocketCompression, WebSocketCompressionConfig};

#[test]
fn test_compression_config_default() {
    let config = WebSocketCompressionConfig::default();
    assert!(config.enabled);
    assert_eq!(config.compression_level, 6);
    assert!(!config.server_no_context_takeover);
    assert!(!config.client_no_context_takeover);
    assert_eq!(config.server_max_window_bits, 15);
    assert_eq!(config.client_max_window_bits, 15);
    assert_eq!(config.min_compress_size, 256);
}

#[test]
fn test_compress_decompress_text() {
    let config = WebSocketCompressionConfig::default();
    let compressor = WebSocketCompression::new(config);

    // Large text message that should compress well
    let original = "Hello, World! ".repeat(100);
    let original_bytes = original.as_bytes();

    // Compress
    let compressed = compressor
        .compress(original_bytes)
        .expect("Compression failed");
    assert!(compressed.is_some(), "Should compress large repeated text");

    let compressed_data = compressed.unwrap();
    assert!(
        compressed_data.len() < original_bytes.len(),
        "Compressed size should be smaller"
    );

    // Decompress
    let decompressed = compressor
        .decompress(&compressed_data)
        .expect("Decompression failed");
    assert_eq!(
        decompressed, original_bytes,
        "Decompressed data should match original"
    );
}

#[test]
fn test_compress_small_message() {
    let config = WebSocketCompressionConfig::default();
    let compressor = WebSocketCompression::new(config);

    // Small message below min_compress_size
    let small_message = b"Hello";

    let compressed = compressor
        .compress(small_message)
        .expect("Compression failed");
    assert!(
        compressed.is_none(),
        "Small messages should not be compressed"
    );
}

#[test]
fn test_compression_disabled() {
    let config = WebSocketCompressionConfig {
        enabled: false,
        ..Default::default()
    };
    let compressor = WebSocketCompression::new(config);

    let data = b"Hello, World! ".repeat(100);
    let compressed = compressor.compress(&data).expect("Should not fail");
    assert!(
        compressed.is_none(),
        "Disabled compression should return None"
    );
}

#[test]
fn test_extension_header() {
    let config = WebSocketCompressionConfig::default();
    let compressor = WebSocketCompression::new(config);

    let header = compressor.extension_header();
    assert_eq!(header, "permessage-deflate");

    // With options
    let config = WebSocketCompressionConfig {
        server_no_context_takeover: true,
        client_no_context_takeover: true,
        ..Default::default()
    };
    let compressor = WebSocketCompression::new(config);
    let header = compressor.extension_header();
    assert!(header.contains("permessage-deflate"));
    assert!(header.contains("server_no_context_takeover"));
    assert!(header.contains("client_no_context_takeover"));
}

#[test]
fn test_extension_header_window_bits() {
    let config = WebSocketCompressionConfig {
        server_max_window_bits: 12,
        client_max_window_bits: 9,
        ..Default::default()
    };
    let compressor = WebSocketCompression::new(config);
    let header = compressor.extension_header();
    assert_eq!(
        header,
        "permessage-deflate; server_max_window_bits=12; client_max_window_bits=9"
    );
}

#[test]
fn test_is_compression_supported() {
    assert!(WebSocketCompression::is_compression_supported(
        "permessage-deflate"
    ));
    assert!(WebSocketCompression::is_compression_supported(
        "permessage-deflate; client_max_window_bits"
    ));
    assert!(WebSocketCompression::is_compression_supported(
        "PERMESSAGE-DEFLATE"
    ));
    assert!(!WebSocketCompression::is_compression_supported(
        "some-other-extension"
    ));
}

#[test]
fn test_should_compress() {
    let config = WebSocketCompressionConfig {
        min_compress_size: 100,
        ..Default::default()
    };
    let compressor = WebSocketCompression::new(config);

    assert!(!compressor.should_compress(50));
    assert!(!compressor.should_compress(99));
    assert!(compressor.should_compress(100));
    assert!(compressor.should_compress(1000));
}

#[test]
fn test_compression_stats() {
    let mut stats = CompressionStats::default();

    // Add some compressed messages
    stats.add_compressed(1000, 400); // 60% compression
    stats.add_compressed(2000, 800); // 60% compression

    // Add uncompressed message
    stats.add_uncompressed(100);

    assert_eq!(stats.bytes_in, 3100);
    assert_eq!(stats.bytes_out, 1300);
    assert_eq!(stats.messages_compressed, 2);
    assert_eq!(stats.messages_uncompressed, 1);
    assert_eq!(stats.bytes_saved(), 1800);

    let ratio = 1.0 - (stats.bytes_out as f64 / stats.bytes_in as f64);
    assert!((ratio - 0.58).abs() < 0.01); // Approximately 58% reduction
}

#[test]
fn test_compression_levels() {
    // Test different compression levels
    let original = "The quick brown fox jumps over the lazy dog. ".repeat(50);

    for level in [0, 1, 6, 9] {
        let config = WebSocketCompressionConfig {
            compression_level: level,
            min_compress_size: 0, // Compress everything
            ..Default::default()
        };
        let compressor = WebSocketCompression::new(config);

        let compressed = compressor
            .compress(original.as_bytes())
            .expect("Compression failed");

        if level == 0 {
            // Level 0 might not compress
            continue;
        }

        assert!(compressed.is_some(), "Level {} should compress", level);
        let compressed_data = compressed.unwrap();

        // Decompress and verify
        let decompressed = compressor
            .decompress(&compressed_data)
            .expect("Decompression failed");
        assert_eq!(decompressed, original.as_bytes());
    }
}

#[test]
fn test_json_compression() {
    let config = WebSocketCompressionConfig {
        min_compress_size: 0, // Compress everything
        ..Default::default()
    };
    let compressor = WebSocketCompression::new(config);

    // JSON data compresses very well
    let json = r#"{"users":[{"name":"Alice","age":30},{"name":"Bob","age":25},{"name":"Charlie","age":35}]}"#.repeat(10);

    let compressed = compressor
        .compress(json.as_bytes())
        .expect("Compression failed")
        .expect("Should compress JSON");

    // JSON should compress significantly
    let ratio = 1.0 - (compressed.len() as f64 / json.len() as f64);
    assert!(ratio > 0.5, "JSON should compress by at least 50%");

    // Verify decompression
    let decompressed = compressor
        .decompress(&compressed)
        .expect("Decompression failed");
    assert_eq!(decompressed, json.as_bytes());
}
