//! The configuration of a network server.

use vstd::prelude::*;
use crate::text::{owned, push_str, push_decimal, decimal};

verus! {

/// Configuration for the Calvin network server.
#[derive(Debug, Clone)]
pub struct ServerConfig {
    /// The address to bind to.
    pub bind_address: String,
    /// The port to listen on.
    pub port: u16,
    /// The server name (for handshake).
    pub name: String,
    /// Maximum number of concurrent connections.
    pub max_connections: usize,
}

impl Default for ServerConfig {
    fn default() -> (r: Self)
        ensures
            r.bind_address@ == "0.0.0.0"@,
            r.port == 8472,
            r.name@ == "calvin-server"@,
            r.max_connections == 64,
    {
        ServerConfig {
            bind_address: owned("0.0.0.0"),
            port: 8472,
            name: owned("calvin-server"),
            max_connections: 64,
        }
    }
}

/// A Calvin network server, by its configuration.
#[derive(Debug)]
pub struct Server {
    config: ServerConfig,
}

impl Server {
    /// A server with the given configuration.
    pub fn new(config: ServerConfig) -> (r: Self)
        ensures
            r.spec_config() == config,
    {
        Server { config }
    }

    /// The configuration of this server.
    pub closed spec fn spec_config(&self) -> ServerConfig {
        self.config
    }

    /// The configuration of this server.
    pub fn config(&self) -> (r: &ServerConfig)
        ensures
            *r == self.spec_config(),
    {
        &self.config
    }

    /// The address the server listens on: `bind_address:port`.
    pub fn address(&self) -> (r: String)
        ensures
            r@ == self.spec_config().bind_address@ + ":"@ + decimal(self.spec_config().port as nat),
    {
        let mut s = self.config.bind_address.clone();
        push_str(&mut s, ":");
        push_decimal(&mut s, self.config.port as u64);
        s
    }
}

} // verus!
