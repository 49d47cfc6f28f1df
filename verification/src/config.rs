//! The configuration that a proxy is started with.  It is fixed for the
//! life of the process.

use crate::text::views;
use crate::upstream::UpstreamPool;
use vstd::prelude::*;
use vstd::string::StringExecFns;

verus! {

/// The address that the proxy listens on unless told otherwise.
pub const DEFAULT_BIND: &'static str = "0.0.0.0:1100";

/// The seconds between two rounds of health checks unless told otherwise.
pub const DEFAULT_HEALTH_CHECK_INTERVAL: usize = 10;

/// The path that health checks request unless told otherwise.
pub const DEFAULT_HEALTH_CHECK_PATH: &'static str = "/";

/// The request limit per client and minute unless told otherwise: none.
pub const DEFAULT_MAX_REQUESTS_PER_MINUTE: usize = 0;

/// What a proxy is told at its start.
pub struct ProxyConfig {
    /// The address to listen on.
    pub bind: String,
    /// The addresses of the upstreams, in the order given.
    pub upstream: Vec<String>,
    /// The seconds between two rounds of health checks.
    pub active_health_check_interval: usize,
    /// The path that health checks request.
    pub active_health_check_path: String,
    /// How many requests one client may make per minute; 0 for no limit.
    pub max_requests_per_minute: usize,
}

impl ProxyConfig {
    /// The configuration for `upstream` with every other setting at its
    /// default.
    pub fn with_defaults(upstream: Vec<String>) -> (config: ProxyConfig)
        ensures
            config.bind@ == DEFAULT_BIND@,
            config.upstream == upstream,
            config.active_health_check_interval == DEFAULT_HEALTH_CHECK_INTERVAL,
            config.active_health_check_path@ == DEFAULT_HEALTH_CHECK_PATH@,
            config.max_requests_per_minute == DEFAULT_MAX_REQUESTS_PER_MINUTE,
    {
        ProxyConfig {
            bind: String::from_str(DEFAULT_BIND),
            upstream,
            active_health_check_interval: DEFAULT_HEALTH_CHECK_INTERVAL,
            active_health_check_path: String::from_str(DEFAULT_HEALTH_CHECK_PATH),
            max_requests_per_minute: DEFAULT_MAX_REQUESTS_PER_MINUTE,
        }
    }

    /// A proxy can start with this configuration: it names an upstream.
    pub open spec fn spec_is_valid(&self) -> bool {
        self.upstream@.len() >= 1
    }

    /// Whether a proxy can start with this configuration.
    pub fn is_valid(&self) -> (valid: bool)
        ensures
            valid == self.spec_is_valid(),
    {
        self.upstream.len() >= 1
    }

    /// Whether requests are limited at all.
    pub fn limits_requests(&self) -> (limited: bool)
        ensures
            limited == (self.max_requests_per_minute != 0),
    {
        self.max_requests_per_minute != 0
    }

    /// The pool of the configured upstreams, none of them marked dead;
    /// `None` where the configuration is not valid.
    pub fn upstream_pool(&self) -> (pool: Option<UpstreamPool>)
        ensures
            pool.is_some() == self.spec_is_valid(),
            pool matches Some(p) ==> (p.wf() && p.addresses() == views(self.upstream@) && p.dead()
                == Set::<Seq<char>>::empty()),
    {
        let mut upstreams: Vec<String> = Vec::new();
        let mut i: usize = 0;
        while i < self.upstream.len()
            invariant
                i <= self.upstream@.len(),
                upstreams@ == self.upstream@.take(i as int),
            decreases self.upstream@.len() - i,
        {
            upstreams.push(self.upstream[i].clone());
            assert(self.upstream@.take(i + 1) =~= self.upstream@.take(i as int).push(
                self.upstream@[i as int],
            ));
            i += 1;
        }
        assert(self.upstream@.take(i as int) =~= self.upstream@);
        UpstreamPool::new(upstreams)
    }
}

} // verus!
