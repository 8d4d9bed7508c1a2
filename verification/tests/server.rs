use openshell::config::{Config, SocketAddress};
use openshell::server::{required_database_url, server_config, verbosity_log_level, ServerArgs, ServerError};
use openshell::text::trim;
use std::path::PathBuf;

fn args() -> ServerArgs {
    ServerArgs {
        port: 8080,
        log_level: "info".into(),
        tls_cert: None,
        tls_key: None,
        db_url: "sqlite:nav.db".into(),
        sandbox_namespace: "default".into(),
        sandbox_image: None,
        grpc_endpoint: None,
    }
}

#[test]
fn database_url_is_trimmed_and_required() {
    let c = Config::default().with_database_url("  sqlite::memory:\n".into());
    assert_eq!(required_database_url(&c).unwrap(), "sqlite::memory:");
    let empty = Config::default().with_database_url(" \t\u{3000}".into());
    match required_database_url(&empty) {
        Err(ServerError::Config(msg)) => assert_eq!(msg, "database_url is required"),
        Ok(_) => panic!("an empty URL must be refused"),
    }
}

#[test]
fn trim_matches_std() {
    for s in ["", "  ", "a", " a b ", "\u{85}x\u{a0}", "\u{2000}y\u{200a}", "\u{200b}z", "\r\n q \t"] {
        assert_eq!(trim(s), s.trim(), "input {s:?}");
    }
}

#[test]
fn server_config_from_arguments() {
    let c = server_config(args());
    assert!(matches!(c.bind_address, SocketAddress::V4 { octets: [0, 0, 0, 0], port: 8080 }));
    assert!(c.tls.is_none());
    assert_eq!(c.database_url, "sqlite:nav.db");
    assert_eq!(c.sandbox_image, "");

    let only_cert = ServerArgs { tls_cert: Some(PathBuf::from("/c")), ..args() };
    assert!(server_config(only_cert).tls.is_none());

    let full = ServerArgs {
        port: 9443,
        tls_cert: Some(PathBuf::from("/c")),
        tls_key: Some(PathBuf::from("/k")),
        sandbox_image: Some("img".into()),
        grpc_endpoint: Some("http://nav".into()),
        ..args()
    };
    let c = server_config(full);
    assert_eq!(c.bind_address.port(), 9443);
    assert_eq!(c.tls.as_ref().unwrap().key_path, PathBuf::from("/k"));
    assert_eq!(c.sandbox_image, "img");
    assert_eq!(c.grpc_endpoint, "http://nav");
}

#[test]
fn verbosity_levels() {
    assert_eq!(verbosity_log_level(0), "warn");
    assert_eq!(verbosity_log_level(1), "info");
    assert_eq!(verbosity_log_level(2), "debug");
    assert_eq!(verbosity_log_level(3), "trace");
    assert_eq!(verbosity_log_level(255), "trace");
}
