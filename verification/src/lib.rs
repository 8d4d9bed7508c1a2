//! Verified core of the OpenShell/Navigator supervisor and gateway logic.
pub mod aggregator;
pub mod calendar;
pub mod config;
pub mod multiplex;
pub mod server;
pub mod syslog;
pub mod tether;
pub mod text;
