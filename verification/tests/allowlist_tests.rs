use sniproxy::allowlist::{is_host_allowed, matches_allowlist_pattern};

#[test]
fn test_allowlist_exact_match() {
    assert!(matches_allowlist_pattern("example.com", "example.com"));
    assert!(!matches_allowlist_pattern("other.com", "example.com"));
}

#[test]
fn test_allowlist_wildcard_subdomain() {
    assert!(matches_allowlist_pattern("sub.example.com", "*.example.com"));
    assert!(matches_allowlist_pattern("deep.sub.example.com", "*.example.com"));
    assert!(matches_allowlist_pattern("example.com", "*.example.com"));
    assert!(!matches_allowlist_pattern("example.com.evil.com", "*.example.com"));
    assert!(!matches_allowlist_pattern("notexample.com", "*.example.com"));
}

#[test]
fn test_allowlist_wildcard_suffix() {
    assert!(matches_allowlist_pattern("test.com", "*test.com"));
    assert!(matches_allowlist_pattern("mytest.com", "*test.com"));
    assert!(!matches_allowlist_pattern("test.org", "*test.com"));
}

#[test]
fn test_allowlist_no_match() {
    assert!(!matches_allowlist_pattern("example.com", "other.com"));
    assert!(!matches_allowlist_pattern("example.com", "*.other.com"));
}

#[test]
fn test_allowlist_pattern_matching() {
    // Exact matches
    assert!(matches_allowlist_pattern("example.com", "example.com"));
    assert!(!matches_allowlist_pattern("other.com", "example.com"));

    // Wildcard subdomains
    assert!(matches_allowlist_pattern("api.example.com", "*.example.com"));
    assert!(matches_allowlist_pattern("www.example.com", "*.example.com"));
    assert!(matches_allowlist_pattern("example.com", "*.example.com"));

    // Suffix wildcards
    assert!(matches_allowlist_pattern("myapi.com", "*api.com"));
    assert!(matches_allowlist_pattern("api.com", "*api.com"));

    // No match
    assert!(!matches_allowlist_pattern("evil.com", "*.example.com"));
    assert!(!matches_allowlist_pattern("exampleXcom", "*.example.com"));
}

#[test]
fn test_allowlist_patterns_integration() {
    // Test exact matches
    assert!(matches_allowlist_pattern("example.com", "example.com"));
    assert!(!matches_allowlist_pattern("other.com", "example.com"));

    // Test wildcard patterns
    assert!(matches_allowlist_pattern("api.example.com", "*.example.com"));
    assert!(matches_allowlist_pattern("v2.api.example.com", "*.example.com"));
    assert!(!matches_allowlist_pattern("example.com.evil.net", "*.example.com"));

    // Test suffix patterns
    assert!(matches_allowlist_pattern("testapi.com", "*api.com"));
    assert!(matches_allowlist_pattern("api.com", "*api.com"));
}

#[test]
fn test_host_allowed_case_insensitive() {
    let allowlist = vec!["*.Example.COM".to_string(), "plain.org".to_string()];
    assert!(is_host_allowed("API.example.com", &allowlist));
    assert!(is_host_allowed("Plain.ORG", &allowlist));
    assert!(!is_host_allowed("plain.org.evil.net", &allowlist));
}

#[test]
fn test_host_allowed_star_matches_all() {
    let allowlist = vec!["*".to_string()];
    assert!(is_host_allowed("anything.at.all", &allowlist));
    assert!(is_host_allowed("", &allowlist));
}

#[test]
fn test_host_allowed_empty_list() {
    let allowlist: Vec<String> = Vec::new();
    assert!(!is_host_allowed("example.com", &allowlist));
}
