//! Configuration of the Navigator gateway server, with its defaults and
//! builder methods.
use vstd::prelude::*;
use std::path::PathBuf;

verus! {

/// `std::path::PathBuf`, a file-system path. The library only stores and
/// moves paths; it never looks inside one.
#[verifier::external_type_specification]
#[verifier::external_body]
pub struct ExPathBuf(std::path::PathBuf);

/// A socket address: an IPv4 or IPv6 address with a port, holding the same
/// values as `std::net::SocketAddr`.
#[derive(Clone, Copy, Debug)]
pub enum SocketAddress {
    /// IPv4 address (four octets) and port.
    V4 { octets: [u8; 4], port: u16 },
    /// IPv6 address (eight segments), port, flow information and scope id.
    V6 { segments: [u16; 8], port: u16, flowinfo: u32, scope_id: u32 },
}

impl SocketAddress {
    /// The port of the address.
    pub open spec fn spec_port(&self) -> u16 {
        match self {
            SocketAddress::V4 { port, .. } => *port,
            SocketAddress::V6 { port, .. } => *port,
        }
    }

    /// The port of the address.
    pub fn port(&self) -> (p: u16)
        ensures
            p == self.spec_port(),
    {
        match self {
            SocketAddress::V4 { port, .. } => *port,
            SocketAddress::V6 { port, .. } => *port,
        }
    }
}

/// Server configuration.
pub struct Config {
    /// Address to bind the server to.
    pub bind_address: SocketAddress,
    /// Log level (trace, debug, info, warn, error).
    pub log_level: String,
    /// TLS configuration.
    pub tls: Option<TlsConfig>,
    /// Database URL for persistence.
    pub database_url: String,
    /// Kubernetes namespace for sandboxes.
    pub sandbox_namespace: String,
    /// Default container image for sandboxes.
    pub sandbox_image: String,
    /// gRPC endpoint for sandboxes to connect back to Navigator.
    pub grpc_endpoint: String,
}

/// TLS configuration.
pub struct TlsConfig {
    /// Path to the TLS certificate file.
    pub cert_path: PathBuf,
    /// Path to the TLS private key file.
    pub key_path: PathBuf,
}

/// Whether `a` is the default bind address `0.0.0.0:8080`.
pub open spec fn is_default_bind_address(a: SocketAddress) -> bool {
    a == (SocketAddress::V4 { octets: [0u8, 0u8, 0u8, 0u8], port: 8080 })
}

/// The default bind address, `0.0.0.0:8080`.
pub fn default_bind_address() -> (a: SocketAddress)
    ensures
        is_default_bind_address(a),
{
    SocketAddress::V4 { octets: [0u8, 0u8, 0u8, 0u8], port: 8080 }
}

/// The default log level, `"info"`.
pub fn default_log_level() -> (s: String)
    ensures
        s@ == "info"@,
{
    "info".to_owned()
}

/// The default sandbox namespace, `"default"`.
pub fn default_sandbox_namespace() -> (s: String)
    ensures
        s@ == "default"@,
{
    "default".to_owned()
}

impl Default for Config {
    /// The default configuration: bind to `0.0.0.0:8080`, log at `info`, no
    /// TLS, empty database URL, namespace `default`, no image or endpoint.
    fn default() -> (c: Self)
        ensures
            is_default_bind_address(c.bind_address),
            c.log_level@ == "info"@,
            c.tls is None,
            c.database_url@ == Seq::<char>::empty(),
            c.sandbox_namespace@ == "default"@,
            c.sandbox_image@ == Seq::<char>::empty(),
            c.grpc_endpoint@ == Seq::<char>::empty(),
    {
        Config {
            bind_address: default_bind_address(),
            log_level: default_log_level(),
            tls: None,
            database_url: String::new(),
            sandbox_namespace: default_sandbox_namespace(),
            sandbox_image: String::new(),
            grpc_endpoint: String::new(),
        }
    }
}

impl Config {
    /// The configuration with the given bind address.
    pub fn with_bind_address(self, addr: SocketAddress) -> (c: Self)
        ensures
            c == (Config { bind_address: addr, ..self }),
    {
        let mut c = self;
        c.bind_address = addr;
        c
    }

    /// The configuration with the given log level.
    pub fn with_log_level(self, level: String) -> (c: Self)
        ensures
            c == (Config { log_level: level, ..self }),
    {
        let mut c = self;
        c.log_level = level;
        c
    }

    /// The configuration with TLS enabled from the given certificate and key.
    pub fn with_tls(self, cert_path: PathBuf, key_path: PathBuf) -> (c: Self)
        ensures
            c == (Config { tls: Some(TlsConfig { cert_path, key_path }), ..self }),
    {
        let mut c = self;
        c.tls = Some(TlsConfig { cert_path, key_path });
        c
    }

    /// The configuration with the given database URL.
    pub fn with_database_url(self, url: String) -> (c: Self)
        ensures
            c == (Config { database_url: url, ..self }),
    {
        let mut c = self;
        c.database_url = url;
        c
    }

    /// The configuration with the given sandbox namespace.
    pub fn with_sandbox_namespace(self, namespace: String) -> (c: Self)
        ensures
            c == (Config { sandbox_namespace: namespace, ..self }),
    {
        let mut c = self;
        c.sandbox_namespace = namespace;
        c
    }

    /// The configuration with the given default sandbox image.
    pub fn with_sandbox_image(self, image: String) -> (c: Self)
        ensures
            c == (Config { sandbox_image: image, ..self }),
    {
        let mut c = self;
        c.sandbox_image = image;
        c
    }

    /// The configuration with the given gRPC callback endpoint.
    pub fn with_grpc_endpoint(self, endpoint: String) -> (c: Self)
        ensures
            c == (Config { grpc_endpoint: endpoint, ..self }),
    {
        let mut c = self;
        c.grpc_endpoint = endpoint;
        c
    }
}

} // verus!
