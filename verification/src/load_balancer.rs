//! The load balancer itself: it owns the server registry, the rate limiter
//! and the round-robin cursor, and runs each incoming request through the
//! pipeline. Listening, forwarding and probing are I/O and live with the
//! caller; this type holds and transforms the state they share.

use vstd::prelude::*;
use crate::proxy_handler::{
    RouteOutcome,
    client_key_spec,
    healthy_seq,
    request_path_spec,
    route_request,
};
use crate::rate_limiter::{RateLimiter, admit_decision, limiter_step};
use crate::upstream::UpstreamServer;

verus! {

/// The registry of upstream servers, the per-client rate limiter, and the
/// round-robin cursor, owned together so that tests can build isolated
/// instances.
pub struct LoadBalancer {
    /// Registration order is stable: membership is append-only, only each
    /// server's health flag is ever written in place.
    pub servers: Vec<UpstreamServer>,
    rate_limiter: RateLimiter,
    next_index: usize,
}

impl LoadBalancer {
    /// The limiter's internal well-formedness.
    pub closed spec fn wf(&self) -> bool {
        self.rate_limiter.wf()
    }

    /// The registry, in registration order.
    pub closed spec fn servers_view(&self) -> Seq<UpstreamServer> {
        self.servers@
    }

    /// The rate limiter's counters: client key to `(count, window_start)`.
    pub closed spec fn counters(&self) -> Map<Seq<char>, (u32, u64)> {
        self.rate_limiter@
    }

    /// The rate-limit window, in milliseconds.
    pub closed spec fn window(&self) -> u64 {
        self.rate_limiter.window()
    }

    /// Admissions allowed per client key per window.
    pub closed spec fn max_requests(&self) -> u32 {
        self.rate_limiter.max_requests()
    }

    /// The round-robin cursor.
    pub closed spec fn cursor(&self) -> usize {
        self.next_index
    }

    /// An empty balancer: no servers, no counters, cursor at the start,
    /// with a rate-limit window of `window_secs` seconds and the given
    /// per-window maximum.
    pub fn new(window_secs: u64, max_requests: u32) -> (r: Self)
        requires
            window_secs <= u64::MAX / 1000,
        ensures
            r.wf(),
            r.servers_view() == Seq::<UpstreamServer>::empty(),
            r.counters() == Map::<Seq<char>, (u32, u64)>::empty(),
            r.window() == window_secs * 1000,
            r.max_requests() == max_requests,
            r.cursor() == 0,
    {
        LoadBalancer {
            servers: Vec::new(),
            rate_limiter: RateLimiter::new(window_secs, max_requests),
            next_index: 0,
        }
    }

    /// Appends a server to the registry, healthy until a probe says
    /// otherwise. Reachability is not checked at add time.
    pub fn add_server(&mut self, url: String)
        requires
            old(self).wf(),
        ensures
            final(self).wf(),
            final(self).servers_view() == old(self).servers_view().push(
                (UpstreamServer { url: url, is_healthy: true }),
            ),
            final(self).counters() == old(self).counters(),
            final(self).window() == old(self).window(),
            final(self).max_requests() == old(self).max_requests(),
            final(self).cursor() == old(self).cursor(),
    {
        self.servers.push(UpstreamServer::new(url));
    }

    /// One request through the pipeline, under this balancer's own limiter,
    /// registry and cursor: denied keys get the 429 response, an admitted
    /// request with no healthy server gets the 503 response, and otherwise
    /// the round-robin choice's URI comes back for forwarding.
    pub fn handle_request(
        &mut self,
        forwarded_for: Option<&str>,
        path_and_query: Option<&str>,
        now: u64,
    ) -> (r: RouteOutcome)
        requires
            old(self).wf(),
        ensures
            final(self).wf(),
            final(self).servers_view() == old(self).servers_view(),
            final(self).window() == old(self).window(),
            final(self).max_requests() == old(self).max_requests(),
            final(self).counters() == limiter_step(
                old(self).counters(),
                old(self).window(),
                old(self).max_requests(),
                client_key_spec(forwarded_for),
                now,
            ),
            ({
                let admitted = admit_decision(
                    old(self).counters(),
                    old(self).window(),
                    old(self).max_requests(),
                    client_key_spec(forwarded_for),
                    now,
                );
                let h = healthy_seq(old(self).servers_view());
                &&& !admitted ==> (r matches RouteOutcome::Respond { status, body } && status
                    == 429 && body@ == "Too Many Requests\n"@) && final(self).cursor() == old(
                    self,
                ).cursor()
                &&& admitted && h.len() == 0 ==> (r matches RouteOutcome::Respond { status, body }
                    && status == 503 && body@ == "Service Unavailable"@) && final(self).cursor()
                    == old(self).cursor()
                &&& admitted && h.len() > 0 ==> (r matches RouteOutcome::Forward { uri } && uri@
                    == h[old(self).cursor() as int % h.len() as int].url@ + request_path_spec(
                    path_and_query,
                )) && final(self).cursor() as int == (old(self).cursor() as int % h.len() as int
                    + 1) % h.len() as int
            }),
    {
        route_request(
            &mut self.rate_limiter,
            &self.servers,
            &mut self.next_index,
            forwarded_for,
            path_and_query,
            now,
        )
    }
}

} // verus!
