//! Configuration of the polling daemon.

use vstd::prelude::*;

verus! {

/// How the polling daemon behaves.
#[derive(Debug, Clone)]
pub struct DaemonConfig {
    pub poll_interval_ms: u64,
    pub enable_incremental: bool,
    pub cache_size_limit: usize,
}

impl Default for DaemonConfig {
    /// Poll every second, incrementally, caching up to 1000 entries.
    fn default() -> (r: Self)
        ensures
            r.poll_interval_ms == 1000,
            r.enable_incremental,
            r.cache_size_limit == 1000,
    {
        DaemonConfig { poll_interval_ms: 1000, enable_incremental: true, cache_size_limit: 1000 }
    }
}

} // verus!
