//! The configuration of a server: fixed at startup, read by every
//! connection.

use vstd::prelude::*;

verus! {

/// How large a request may be.
#[derive(Clone, Copy, Debug, PartialEq, Eq, Structural)]
pub struct Limits {
    /// Most bytes that a header block may have, request line and empty
    /// line included.
    pub max_header_bytes: usize,
    /// Most bytes that a body may have.
    pub max_body_bytes: usize,
}

/// What a server is started with.
#[derive(Debug, PartialEq, Eq)]
pub struct ServerConfig {
    /// The root of the served tree: an absolute, canonical path.
    pub root_directory: Vec<u8>,
    /// The port to listen on.
    pub listen_port: u16,
    /// How large a request may be.
    pub limits: Limits,
    /// Most milliseconds that a read from a connection may take.
    pub read_timeout_ms: u64,
    /// Most milliseconds that a script may run.
    pub script_timeout_ms: u64,
    /// Most connections that are handled at a time.
    pub max_connections: usize,
}

impl ServerConfig {
    /// The configuration for `root_directory` and `listen_port`, with
    /// limits of 8 KiB for headers and 1 MiB for bodies, timeouts of ten
    /// seconds, and 64 connections at a time.
    pub fn new(root_directory: Vec<u8>, listen_port: u16) -> (c: ServerConfig)
        ensures
            c.root_directory@ == root_directory@,
            c.listen_port == listen_port,
            c.limits == (Limits { max_header_bytes: 8192, max_body_bytes: 1048576 }),
            c.read_timeout_ms == 10000,
            c.script_timeout_ms == 10000,
            c.max_connections == 64,
    {
        ServerConfig {
            root_directory,
            listen_port,
            limits: Limits { max_header_bytes: 8192, max_body_bytes: 1048576 },
            read_timeout_ms: 10000,
            script_timeout_ms: 10000,
            max_connections: 64,
        }
    }
}

} // verus!
