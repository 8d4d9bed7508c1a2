//! Start-up checks of the Navigator gateway server.
use vstd::prelude::*;
use crate::config::{Config, SocketAddress, TlsConfig};
use std::path::PathBuf;
use crate::text::{trim, trim_spec};

verus! {

/// Errors raised while starting the server.
#[derive(Debug)]
pub enum ServerError {
    /// The configuration is unusable; the text says why.
    Config(String),
}

/// The message for a configuration without a database URL.
pub open spec fn missing_database_url_message() -> Seq<char> {
    "database_url is required"@
}

/// The database URL the server connects to: the configured URL without
/// surrounding whitespace, which must not be empty.
pub fn required_database_url(config: &Config) -> (r: Result<String, ServerError>)
    ensures
        match r {
            Ok(url) => url@ == trim_spec(config.database_url@) && url@.len() > 0,
            Err(ServerError::Config(msg)) => trim_spec(config.database_url@).len() == 0
                && msg@ == missing_database_url_message(),
        },
{
    let url = trim(config.database_url.as_str());
    if url.as_str().is_empty() {
        return Err(ServerError::Config("database_url is required".to_owned()));
    }
    Ok(url)
}

/// Command-line arguments of the server binary.
pub struct ServerArgs {
    /// Port to bind the server to (all interfaces).
    pub port: u16,
    /// Log level (trace, debug, info, warn, error).
    pub log_level: String,
    /// Path to the TLS certificate file.
    pub tls_cert: Option<PathBuf>,
    /// Path to the TLS private key file.
    pub tls_key: Option<PathBuf>,
    /// Database URL for persistence.
    pub db_url: String,
    /// Kubernetes namespace for sandboxes.
    pub sandbox_namespace: String,
    /// Default container image for sandboxes.
    pub sandbox_image: Option<String>,
    /// gRPC endpoint for sandboxes to call back to Navigator.
    pub grpc_endpoint: Option<String>,
}

/// The server configuration built from the command line: the defaults,
/// bound to all interfaces on the given port, with TLS only when both a
/// certificate and a key are given, and the image and endpoint only when
/// given.
pub fn server_config(args: ServerArgs) -> (c: Config)
    ensures
        c.bind_address == (SocketAddress::V4 { octets: [0u8, 0u8, 0u8, 0u8], port: args.port }),
        c.log_level == args.log_level,
        match (args.tls_cert, args.tls_key) {
            (Some(cert), Some(key)) => c.tls == Some(TlsConfig { cert_path: cert, key_path: key }),
            _ => c.tls is None,
        },
        c.database_url == args.db_url,
        c.sandbox_namespace == args.sandbox_namespace,
        match args.sandbox_image {
            Some(image) => c.sandbox_image == image,
            None => c.sandbox_image@ == Seq::<char>::empty(),
        },
        match args.grpc_endpoint {
            Some(endpoint) => c.grpc_endpoint == endpoint,
            None => c.grpc_endpoint@ == Seq::<char>::empty(),
        },
{
    let bind = SocketAddress::V4 { octets: [0u8, 0u8, 0u8, 0u8], port: args.port };
    let mut config = Config::default().with_bind_address(bind).with_log_level(args.log_level);
    if let (Some(cert), Some(key)) = (args.tls_cert, args.tls_key) {
        config = config.with_tls(cert, key);
    }
    config = config.with_database_url(args.db_url).with_sandbox_namespace(args.sandbox_namespace);
    if let Some(image) = args.sandbox_image {
        config = config.with_sandbox_image(image);
    }
    if let Some(endpoint) = args.grpc_endpoint {
        config = config.with_grpc_endpoint(endpoint);
    }
    config
}

/// Log level of the command-line client for a verbosity count (`-v`
/// repeated): `warn`, `info`, `debug`, then `trace`.
pub open spec fn verbosity_level_spec(verbose: u8) -> Seq<char> {
    if verbose == 0 {
        "warn"@
    } else if verbose == 1 {
        "info"@
    } else if verbose == 2 {
        "debug"@
    } else {
        "trace"@
    }
}

/// Log level of the command-line client for a verbosity count.
pub fn verbosity_log_level(verbose: u8) -> (r: &'static str)
    ensures
        r@ == verbosity_level_spec(verbose),
{
    match verbose {
        0 => "warn",
        1 => "info",
        2 => "debug",
        _ => "trace",
    }
}

} // verus!
