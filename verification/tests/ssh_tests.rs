use sniproxy::ssh::extract_ssh_destination;

#[test]
fn test_extract_destination_at_format() {
    // Standard SSH format: user@host
    assert_eq!(
        extract_ssh_destination("git@github.com"),
        ("github.com", "git")
    );
    assert_eq!(
        extract_ssh_destination("admin@server.example.com"),
        ("server.example.com", "admin")
    );
    assert_eq!(
        extract_ssh_destination("user@gitlab.com"),
        ("gitlab.com", "user")
    );
}

#[test]
fn test_extract_destination_hostname_only() {
    // Hostname only - uses default "root" user
    assert_eq!(
        extract_ssh_destination("github.com"),
        ("github.com", "root")
    );
    assert_eq!(
        extract_ssh_destination("example.com"),
        ("example.com", "root")
    );
    assert_eq!(
        extract_ssh_destination("server.example.com"),
        ("server.example.com", "root")
    );
}

#[test]
fn test_extract_destination_edge_cases() {
    // Empty string
    assert_eq!(extract_ssh_destination(""), ("", ""));

    // Just @ (invalid)
    assert_eq!(extract_ssh_destination("@"), ("", ""));

    // @ at start (invalid)
    assert_eq!(extract_ssh_destination("@github.com"), ("", ""));

    // @ at end (invalid)
    assert_eq!(extract_ssh_destination("git@"), ("", ""));

    // Whitespace (invalid)
    assert_eq!(extract_ssh_destination("git hub"), ("", ""));
}

#[test]
fn test_complex_hostnames() {
    // Multi-level subdomains
    assert_eq!(
        extract_ssh_destination("git@git.server.example.com"),
        ("git.server.example.com", "git")
    );

    // IPv4 addresses
    assert_eq!(
        extract_ssh_destination("admin@192.168.1.1"),
        ("192.168.1.1", "admin")
    );

    // IPv6 would need brackets in URLs, but SSH doesn't require them
    assert_eq!(extract_ssh_destination("root@fe80::1"), ("fe80::1", "root"));
}
