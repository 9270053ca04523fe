//! Verified core of a concurrent ICMP echo ("ping") client: the configuration
//! line, the echo packets, the records of requests and the table in which a
//! run tracks them.
pub mod cli_args;
pub mod config;
pub mod connection_handle;
pub mod echo_handle;
pub mod net;
pub mod ping_app;
pub mod ping_net;
pub mod text;
pub mod utils;
