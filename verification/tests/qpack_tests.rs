use sniproxy::qpack::{HeaderField, QpackConfig, QpackDecoder, QpackDynamicTable, QpackEncoder};

#[test]
fn test_qpack_config_default() {
    let config = QpackConfig::default();
    assert!(config.enabled);
    assert_eq!(config.max_table_capacity, 4096);
    assert_eq!(config.max_blocked_streams, 16);
    assert!(config.huffman_encoding);
}

#[test]
fn test_header_field_size() {
    let field = HeaderField::new("content-type".to_string(), "application/json".to_string());
    // name(12) + value(16) + overhead(32) = 60
    assert_eq!(field.size(), 60);
}

#[test]
fn test_dynamic_table_insert_and_get() {
    let config = QpackConfig::default();
    let mut table = QpackDynamicTable::new(config);

    table.insert("content-type".to_string(), "application/json".to_string());
    table.insert("content-length".to_string(), "1234".to_string());

    assert_eq!(table.len(), 2);

    let field = table.get(0).unwrap();
    assert_eq!(field.name, "content-length"); // Most recent

    let field = table.get(1).unwrap();
    assert_eq!(field.name, "content-type");
}

#[test]
fn test_dynamic_table_find() {
    let config = QpackConfig::default();
    let mut table = QpackDynamicTable::new(config);

    table.insert("content-type".to_string(), "application/json".to_string());
    table.insert("content-length".to_string(), "1234".to_string());

    let index = table.find("content-type", "application/json");
    assert_eq!(index, Some(1)); // Second entry (index 1)

    let index = table.find("content-length", "1234");
    assert_eq!(index, Some(0)); // First entry (index 0)

    let index = table.find("not-found", "value");
    assert_eq!(index, None);
}

#[test]
fn test_dynamic_table_find_name() {
    let config = QpackConfig::default();
    let mut table = QpackDynamicTable::new(config);

    table.insert("content-type".to_string(), "application/json".to_string());
    table.insert("content-length".to_string(), "1234".to_string());

    let index = table.find_name("content-type");
    assert_eq!(index, Some(1));

    let index = table.find_name("not-found");
    assert_eq!(index, None);
}

#[test]
fn test_dynamic_table_eviction() {
    let config = QpackConfig {
        max_table_capacity: 200, // Small capacity
        ..Default::default()
    };
    let mut table = QpackDynamicTable::new(config);

    // Insert multiple entries
    table.insert("header1".to_string(), "value1".to_string()); // 39 bytes
    table.insert("header2".to_string(), "value2".to_string()); // 39 bytes
    table.insert("header3".to_string(), "value3".to_string()); // 39 bytes
    table.insert("header4".to_string(), "value4".to_string()); // 39 bytes
    table.insert("header5".to_string(), "value5".to_string()); // 39 bytes

    // Table should have evicted older entries
    assert!(table.len() <= 5);
    assert!(table.size() <= 200);

    // Most recent should still be there
    let field = table.get(0).unwrap();
    assert_eq!(field.name, "header5");
}

#[test]
fn test_dynamic_table_disabled() {
    let config = QpackConfig {
        enabled: false,
        ..Default::default()
    };
    let mut table = QpackDynamicTable::new(config);

    table.insert("content-type".to_string(), "application/json".to_string());

    assert_eq!(table.get(0), None);
    assert_eq!(table.find("content-type", "application/json"), None);
}

#[test]
fn test_dynamic_table_clear() {
    let config = QpackConfig::default();
    let mut table = QpackDynamicTable::new(config);

    table.insert("content-type".to_string(), "application/json".to_string());
    table.insert("content-length".to_string(), "1234".to_string());

    assert_eq!(table.len(), 2);

    table.clear();

    assert_eq!(table.len(), 0);
    assert!(table.is_empty());
    assert_eq!(table.size(), 0);
}

#[test]
fn test_qpack_stats() {
    let config = QpackConfig::default();
    let mut table = QpackDynamicTable::new(config);

    table.insert("header1".to_string(), "value1".to_string());
    table.find("header1", "value1"); // Hit
    table.find("header2", "value2"); // Miss

    let stats = table.stats();
    assert_eq!(stats.insertions, 1);
    assert_eq!(stats.hits, 1);
    assert_eq!(stats.misses, 1);
    assert_eq!(stats.total_queries(), 2);
    let hit_rate = (stats.hits as f64 / stats.total_queries() as f64) * 100.0;
    assert_eq!(hit_rate, 50.0);
}

#[test]
fn test_qpack_encoder_basic() {
    let config = QpackConfig::default();
    let mut encoder = QpackEncoder::new(config);

    let headers = vec![
        ("content-type".to_string(), "application/json".to_string()),
        ("content-length".to_string(), "1234".to_string()),
    ];

    let encoded = encoder.encode(&headers);
    assert!(!encoded.is_empty());

    // Second encoding should use table
    let encoded2 = encoder.encode(&headers);
    assert!(!encoded2.is_empty());

    // Table should have entries
    assert_eq!(encoder.table().len(), 2);
}

#[test]
fn test_qpack_decoder_placeholder() {
    let config = QpackConfig::default();
    let mut decoder = QpackDecoder::new(config);

    let result = decoder.decode(&[0x80, 0x01]);
    assert!(result.is_err());
    assert_eq!(
        result.unwrap_err(),
        "QPACK decoding not yet fully implemented"
    );
}
