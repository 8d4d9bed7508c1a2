use openshell::syslog::{load_ca_roots, CaCertError};

const TEST_CA: &str = "-----BEGIN CERTIFICATE-----\nMIIBgjCCASmgAwIBAgIUa2S6bB/zEqlWdBVv5vXZe5YzbsYwCgYIKoZIzj0EAwIw\nFzEVMBMGA1UEAwwMVGVzdCBSb290IENBMB4XDTI2MTExODAwMDM0MloXDTM2MTEx\nNTAwMDM0MlowFzEVMBMGA1UEAwwMVGVzdCBSb290IENBMFkwEwYHKoZIzj0CAQYI\nKoZIzj0DAQcDQgAEBFit3ZsQW3JolVHz1lkI73xhe7QKjJJTZP/yP7stNndNiA6c\n3WSEvxPvlredBMCwV2NcWJNqnTfcEElgRrRSDqNTMFEwHQYDVR0OBBYEFLsoUMIU\nz9bMEmIZTykG4nJ3VB7aMB8GA1UdIwQYMBaAFLsoUMIUz9bMEmIZTykG4nJ3VB7a\nMA8GA1UdEwEB/wQFMAMBAf8wCgYIKoZIzj0EAwIDRwAwRAIgWfqYxKQiSFe1o9b6\nB2zE06V2KdsLxF3lJBMCMTvvlZcCID0NZEKJRM/S3AaNvOVG+8zA8GWoPHUjybYN\n99Q7yoh+\n-----END CERTIFICATE-----\n";

#[test]
fn ca_roots_from_valid_pem() {
    let store = load_ca_roots(TEST_CA.as_bytes()).ok().expect("valid CA");
    assert_eq!(store.len(), 1);
    let two = format!("{TEST_CA}{TEST_CA}");
    let store = load_ca_roots(two.as_bytes()).ok().expect("valid CAs");
    assert_eq!(store.len(), 2);
}

#[test]
fn ca_roots_from_empty_pem() {
    let store = load_ca_roots(b"no pem sections here\n").ok().expect("empty is fine");
    assert_eq!(store.len(), 0);
}

#[test]
fn ca_roots_reject_unusable_certificate() {
    let bad = "-----BEGIN CERTIFICATE-----\nAAAA\n-----END CERTIFICATE-----\n";
    assert!(matches!(load_ca_roots(bad.as_bytes()), Err(CaCertError::Add(_))));
    // The unusable certificate comes first, so its error wins over a later
    // read error.
    let both = format!("{bad}-----BEGIN CERTIFICATE-----\nAAAA\n");
    assert!(matches!(load_ca_roots(both.as_bytes()), Err(CaCertError::Add(_))));
}

#[test]
fn ca_roots_report_read_errors() {
    let truncated = format!("{TEST_CA}-----BEGIN CERTIFICATE-----\nAAAA\n");
    assert!(matches!(load_ca_roots(truncated.as_bytes()), Err(CaCertError::Read(_))));
}
