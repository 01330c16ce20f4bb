//! Server configuration. The accept loop itself — binding the listening
//! socket and spawning one worker per accepted connection — is socket and
//! thread work and lives with the caller; this module only carries the
//! configuration it runs on.

use vstd::prelude::*;

verus! {

/// The server's configuration: the TCP port its accept loop binds.
pub struct MinecraftServer {
    port: i32,
}

impl MinecraftServer {
    /// The configured port.
    pub closed spec fn spec_port(self) -> i32 {
        self.port
    }

    /// The configured port.
    pub fn port(&self) -> (r: i32)
        ensures
            r == self.spec_port(),
    {
        self.port
    }
}

/// Builds a server configured to bind `port`.
pub fn bind(port: i32) -> (r: MinecraftServer)
    ensures
        r.spec_port() == port,
{
    MinecraftServer { port }
}

} // verus!
