//! The listener's configuration and its accept-retry policy: failed
//! accepts back off at 1, 2, 3 and 4 seconds; the fifth consecutive
//! failure gives up.

use vstd::prelude::*;

verus! {

/// Configuration of a server instance.
#[derive(Debug, Clone)]
pub struct ServerOptions {
    /// TCP port for the server to listen on.
    pub port: String,
    /// Maximum number of TCP connections accepted by this server.
    pub max_connections: u32,
    /// Unix socket bound to the local object store.
    pub plasma_socket: String,
    /// The amount of time in milliseconds to wait before requests to the
    /// object store time out.
    pub plasma_timeout: i64,
}

/// The bounded exponential backoff of the accept loop.
pub struct AcceptBackoff {
    backoff: u64,
}

impl AcceptBackoff {
    /// How many seconds the next pause takes, counted from one.
    pub closed spec fn spec_backoff(&self) -> u64 {
        self.backoff
    }

    /// A fresh policy: the first failure waits one second.
    pub fn new() -> (r: Self)
        ensures
            r.spec_backoff() == 1,
    {
        AcceptBackoff { backoff: 1 }
    }

    /// Reports one accept failure. Returns how many seconds to pause
    /// before retrying, or `None` when the attempts are exhausted: the
    /// first four failures pause 1, 2, 3 and 4 seconds, the fifth
    /// consecutive failure gives up.
    pub fn on_error(&mut self) -> (r: Option<u64>)
        ensures
            old(self).spec_backoff() > 4 ==> r is None && final(self).spec_backoff() == old(self).spec_backoff(),
            old(self).spec_backoff() <= 4 ==> r == Some(old(self).spec_backoff()) && final(self).spec_backoff() == old(self).spec_backoff() + 1,
    {
        if self.backoff > 4 {
            return None;
        }
        let pause = self.backoff;
        self.backoff = self.backoff + 1;
        Some(pause)
    }
}

} // verus!
