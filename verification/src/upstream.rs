//! Upstream servers and the application of health-probe outcomes.
//!
//! A server is an endpoint URL and a health flag. A probe is an HTTP GET
//! against that URL, performed outside this library; what it yields — a
//! status code, or nothing on a transport failure — is applied here: only
//! a 200 status marks the server healthy. Probe failures are an expected
//! outcome, never an error to propagate.

use vstd::prelude::*;

verus! {

/// One upstream server: its endpoint URL and its most recently probed
/// health. A freshly added server starts healthy.
pub struct UpstreamServer {
    pub url: String,
    pub is_healthy: bool,
}

impl Clone for UpstreamServer {
    fn clone(&self) -> (r: Self)
        ensures
            r == *self,
    {
        UpstreamServer { url: self.url.clone(), is_healthy: self.is_healthy }
    }
}

/// The health a probe outcome dictates: exactly a 200 status is healthy;
/// any other status, or a transport failure (`None`), is not.
pub fn probe_healthy(status: Option<u16>) -> (h: bool)
    ensures
        h == (status == Some(200u16)),
{
    match status {
        Some(code) => code == 200,
        None => false,
    }
}

impl UpstreamServer {
    /// A server at `url`, healthy until a probe says otherwise.
    pub fn new(url: String) -> (s: Self)
        ensures
            s.url == url,
            s.is_healthy,
    {
        UpstreamServer { url, is_healthy: true }
    }

    /// Applies one probe outcome to this server's health flag:
    /// `Some(status)` is the response status of a completed GET, `None` a
    /// transport failure. The URL is untouched.
    pub fn apply_probe(&mut self, status: Option<u16>)
        ensures
            final(self).url == old(self).url,
            final(self).is_healthy == (status == Some(200u16)),
    {
        self.is_healthy = probe_healthy(status);
    }
}

/// Applies one probe outcome per probed server, in order: one pass of the
/// health monitor's periodic tick. Membership is append-only, so servers
/// beyond the probed prefix — added after the pass took its snapshot — are
/// left as they stand. URLs and the order of servers are untouched.
pub fn apply_probe_results(servers: &mut Vec<UpstreamServer>, statuses: &Vec<Option<u16>>)
    requires
        statuses@.len() <= old(servers)@.len(),
    ensures
        final(servers)@.len() == old(servers)@.len(),
        forall|i: int|
            0 <= i < statuses@.len() ==> (#[trigger] final(servers)@[i]).url
                == old(servers)@[i].url && final(servers)@[i].is_healthy == (statuses@[i]
                == Some(200u16)),
        forall|i: int|
            statuses@.len() <= i < final(servers)@.len() ==> final(servers)@[i] == old(
                servers,
            )@[i],
{
    let mut i: usize = 0;
    while i < statuses.len()
        invariant
            i <= statuses@.len(),
            statuses@.len() <= servers@.len(),
            servers@.len() == old(servers)@.len(),
            forall|j: int|
                0 <= j < i ==> (#[trigger] servers@[j]).url == old(servers)@[j].url
                    && servers@[j].is_healthy == (statuses@[j] == Some(200u16)),
            forall|j: int| i <= j < servers@.len() ==> servers@[j] == old(servers)@[j],
        decreases statuses@.len() - i,
    {
        let server = &mut servers[i];
        server.apply_probe(statuses[i]);
        i += 1;
    }
}

} // verus!
