//! Active health checks: what is probed, and what a probe's outcome does to
//! the pool.
//!
//! A driver sleeps for the configured interval, sends one GET per upstream
//! to the address that [`health_check_url`] names, waits no longer than
//! [`PROBE_TIMEOUT_SECS`] for each, and hands every outcome to
//! [`record_probe`].  No outcome is an error of the checker: a probe that
//! fails only marks its upstream dead.

use crate::upstream::{is_live, lemma_candidates_are_live, UpstreamPool};
use vstd::prelude::*;
use vstd::string::StringExecFns;

verus! {

/// How long a probe may take, in seconds, before it counts as failed.
pub const PROBE_TIMEOUT_SECS: u64 = 1;

/// How a health probe ended.
#[derive(Clone, Copy, Debug, PartialEq, Eq, Structural)]
pub enum ProbeOutcome {
    /// The upstream answered with this HTTP status code.
    Responded(u16),
    /// No answer came within the time allowed.
    TimedOut,
    /// The upstream could not be reached, or the exchange broke off.
    ConnectionFailed,
}

/// Whether a status code stands for success.
///
/// Wraps `StatusCode::from_u16` and `StatusCode::is_success` of the `http`
/// crate.  The first accepts the codes from 100 to 999, the second holds
/// for those from 200 to 299; every other number is no success.
#[verifier::external_body]
fn status_is_success(code: u16) -> (success: bool)
    ensures
        success == (200 <= code <= 299),
{
    match http::StatusCode::from_u16(code) {
        Ok(status) => status.is_success(),
        Err(_) => false,
    }
}

impl ProbeOutcome {
    /// The upstream answered, and with a success status.
    pub open spec fn spec_is_healthy(self) -> bool {
        self matches ProbeOutcome::Responded(code) && 200 <= code <= 299
    }

    /// Whether the outcome shows a healthy upstream.
    pub fn is_healthy(self) -> (healthy: bool)
        ensures
            healthy == self.spec_is_healthy(),
    {
        match self {
            ProbeOutcome::Responded(code) => status_is_success(code),
            ProbeOutcome::TimedOut => false,
            ProbeOutcome::ConnectionFailed => false,
        }
    }
}

/// The address that a probe of `upstream` is sent to.
pub open spec fn spec_health_check_url(upstream: Seq<char>, path: Seq<char>) -> Seq<char> {
    "http://"@ + upstream + path
}

/// The URL that a health probe of `upstream` requests.
pub fn health_check_url(upstream: &str, path: &str) -> (url: String)
    ensures
        url@ == spec_health_check_url(upstream@, path@),
{
    let mut url = String::from_str("http://");
    url.append(upstream);
    url.append(path);
    url
}

/// The URLs of one round of probes: one for each configured upstream, in
/// the order of the configured list.
pub fn health_check_urls(pool: &UpstreamPool, path: &str) -> (urls: Vec<String>)
    ensures
        urls@.len() == pool.addresses().len(),
        forall|i: int|
            0 <= i < urls@.len() ==> (#[trigger] urls@[i])@ == spec_health_check_url(
                pool.addresses()[i],
                path@,
            ),
{
    let mut urls: Vec<String> = Vec::new();
    let mut i: usize = 0;
    while i < pool.len()
        invariant
            i <= pool.addresses().len(),
            urls@.len() == i,
            forall|j: int|
                0 <= j < i ==> (#[trigger] urls@[j])@ == spec_health_check_url(
                    pool.addresses()[j],
                    path@,
                ),
        decreases pool.addresses().len() - i,
    {
        urls.push(health_check_url(pool.address(i), path));
        i += 1;
    }
    urls
}

/// The dead set after a probe of the upstream with address `addr`: a
/// healthy upstream leaves the set, any other enters it.
pub open spec fn dead_after_probe(
    dead: Set<Seq<char>>,
    addr: Seq<char>,
    outcome: ProbeOutcome,
) -> Set<Seq<char>> {
    if outcome.spec_is_healthy() {
        dead.remove(addr)
    } else {
        dead.insert(addr)
    }
}

/// Records the outcome of a probe of the upstream at position `i`.
pub fn record_probe(pool: &mut UpstreamPool, i: usize, outcome: ProbeOutcome)
    requires
        old(pool).wf(),
        i < old(pool).addresses().len(),
    ensures
        final(pool).wf(),
        final(pool).addresses() == old(pool).addresses(),
        final(pool).dead() == dead_after_probe(
            old(pool).dead(),
            old(pool).addresses()[i as int],
            outcome,
        ),
{
    if outcome.is_healthy() {
        pool.mark_alive(i);
    } else {
        pool.mark_dead(i);
    }
}

/// A dead upstream that answers a probe with success is back among the
/// candidates of the very next selection; one that fails its probe is
/// not.
pub proof fn lemma_probe_decides_candidacy(
    before: UpstreamPool,
    after: UpstreamPool,
    i: int,
    outcome: ProbeOutcome,
)
    requires
        0 <= i < before.addresses().len(),
        after.addresses() == before.addresses(),
        after.dead() == dead_after_probe(before.dead(), before.addresses()[i], outcome),
    ensures
        outcome.spec_is_healthy() ==> !after.dead().contains(after.addresses()[i])
            && after.live().contains(i),
        !outcome.spec_is_healthy() ==> after.dead().contains(after.addresses()[i])
            && !after.live().contains(i),
{
    lemma_candidates_are_live(after);
    if after.live().contains(i) {
        let k = choose|k: int| 0 <= k < after.live().len() && after.live()[k] == i;
        assert(is_live(after.addresses(), after.dead(), after.live()[k]));
    }
}

} // verus!
