use openshell::config::{
    default_bind_address, default_log_level, default_sandbox_namespace, Config, SocketAddress,
};
use std::path::PathBuf;

#[test]
fn default_configuration() {
    let c = Config::default();
    assert!(matches!(c.bind_address, SocketAddress::V4 { octets: [0, 0, 0, 0], port: 8080 }));
    assert_eq!(c.log_level, "info");
    assert!(c.tls.is_none());
    assert_eq!(c.database_url, "");
    assert_eq!(c.sandbox_namespace, "default");
    assert_eq!(c.sandbox_image, "");
    assert_eq!(c.grpc_endpoint, "");
    assert_eq!(default_log_level(), "info");
    assert_eq!(default_sandbox_namespace(), "default");
    assert_eq!(default_bind_address().port(), 8080);
}

#[test]
fn builders_set_one_field_each() {
    let c = Config::default()
        .with_bind_address(SocketAddress::V4 { octets: [127, 0, 0, 1], port: 9000 })
        .with_log_level("debug".into())
        .with_tls(PathBuf::from("/c.pem"), PathBuf::from("/k.pem"))
        .with_database_url("sqlite::memory:".into())
        .with_sandbox_namespace("ns".into())
        .with_sandbox_image("img:1".into())
        .with_grpc_endpoint("http://nav:8080".into());
    assert_eq!(c.bind_address.port(), 9000);
    assert_eq!(c.log_level, "debug");
    let tls = c.tls.as_ref().unwrap();
    assert_eq!(tls.cert_path, PathBuf::from("/c.pem"));
    assert_eq!(tls.key_path, PathBuf::from("/k.pem"));
    assert_eq!(c.database_url, "sqlite::memory:");
    assert_eq!(c.sandbox_namespace, "ns");
    assert_eq!(c.sandbox_image, "img:1");
    assert_eq!(c.grpc_endpoint, "http://nav:8080");
}
