//! Round-robin selection over the healthy servers and the per-request
//! pipeline: rate-limit check, then selection, then either a response the
//! proxy produces itself (rate limited, or no healthy server) or the URI the
//! request is forwarded to.

use vstd::prelude::*;
use vstd::string::{StrSliceExecFns, StringExecFns};
use crate::rate_limiter::{RateLimiter, admit_decision, limiter_step};
use crate::upstream::UpstreamServer;

verus! {

broadcast use vstd::seq_lib::group_filter_ensures;

/// The healthy servers, in registration order: the ordering round robin
/// cycles over.
pub open spec fn healthy_seq(s: Seq<UpstreamServer>) -> Seq<UpstreamServer> {
    s.filter(|u: UpstreamServer| u.is_healthy)
}

/// Every member of the healthy ordering comes from the registry.
pub proof fn lemma_healthy_seq_member(s: Seq<UpstreamServer>, i: int)
    requires
        0 <= i < healthy_seq(s).len(),
    ensures
        s.contains(healthy_seq(s)[i]),
    decreases s.len(),
{
    reveal(Seq::filter);
    if s.len() > 0 {
        if s.last().is_healthy {
            if i < healthy_seq(s).len() - 1 {
                lemma_healthy_seq_member(s.drop_last(), i);
                let j = choose|j: int|
                    0 <= j < s.drop_last().len() && s.drop_last()[j] == healthy_seq(s)[i];
                assert(s[j] == healthy_seq(s)[i]);
            } else {
                assert(s[s.len() - 1] == healthy_seq(s)[i]);
            }
        } else {
            lemma_healthy_seq_member(s.drop_last(), i);
            let j = choose|j: int|
                0 <= j < s.drop_last().len() && s.drop_last()[j] == healthy_seq(s)[i];
            assert(s[j] == healthy_seq(s)[i]);
        }
    }
}

/// A healthy server is eligible at once: it stands in the healthy ordering
/// that the very next selection draws from.
pub proof fn lemma_healthy_is_eligible(s: Seq<UpstreamServer>, i: int)
    requires
        0 <= i < s.len(),
        s[i].is_healthy,
    ensures
        healthy_seq(s).contains(s[i]),
{
    s.lemma_filter_contains(|u: UpstreamServer| u.is_healthy, i);
}

/// With every server unhealthy, the healthy ordering is empty: selection
/// finds nothing.
pub proof fn lemma_all_unhealthy_none(s: Seq<UpstreamServer>)
    requires
        forall|i: int| 0 <= i < s.len() ==> !(#[trigger] s[i]).is_healthy,
    ensures
        healthy_seq(s).len() == 0,
    decreases s.len(),
{
    reveal(Seq::filter);
    if s.len() > 0 {
        assert(!s[s.len() - 1].is_healthy);
        lemma_all_unhealthy_none(s.drop_last());
    }
}

/// With every server healthy, the healthy ordering is the registry itself:
/// round robin cycles over all servers in registration order.
pub proof fn lemma_all_healthy_all(s: Seq<UpstreamServer>)
    requires
        forall|i: int| 0 <= i < s.len() ==> (#[trigger] s[i]).is_healthy,
    ensures
        healthy_seq(s) == s,
    decreases s.len(),
{
    reveal(Seq::filter);
    if s.len() == 0 {
        assert(healthy_seq(s) =~= s);
    } else {
        assert(s[s.len() - 1].is_healthy);
        lemma_all_healthy_all(s.drop_last());
        assert(healthy_seq(s) =~= s);
    }
}

/// Picks the next healthy server by round robin: the healthy servers are
/// gathered in registration order, the cursor (reduced modulo their number,
/// which guards against a cursor left over from a larger healthy set) names
/// the one returned, and the cursor advances by one position. With no
/// healthy server, nothing is returned and the cursor is untouched.
pub fn select_next_server(servers: &Vec<UpstreamServer>, next_index: &mut usize) -> (r: Option<
    UpstreamServer,
>)
    ensures
        healthy_seq(servers@).len() == 0 <==> r is None,
        r is None ==> *final(next_index) == *old(next_index),
        r matches Some(server) ==> {
            let h = healthy_seq(servers@);
            &&& server == h[*old(next_index) as int % h.len() as int]
            &&& *final(next_index) as int == (*old(next_index) as int % h.len() as int + 1)
                % h.len() as int
            &&& server.is_healthy
            &&& servers@.contains(server)
        },
{
    let mut healthy: Vec<UpstreamServer> = Vec::new();
    let mut i: usize = 0;
    while i < servers.len()
        invariant
            i <= servers@.len(),
            healthy@ == healthy_seq(servers@.subrange(0, i as int)),
        decreases servers@.len() - i,
    {
        proof {
            reveal(Seq::filter);
            assert(servers@.subrange(0, i + 1).drop_last() =~= servers@.subrange(0, i as int));
            assert(servers@.subrange(0, i + 1).last() == servers@[i as int]);
        }
        if servers[i].is_healthy {
            healthy.push(servers[i].clone());
        }
        i += 1;
    }
    proof {
        assert(servers@.subrange(0, servers@.len() as int) =~= servers@);
    }
    if healthy.len() == 0 {
        None
    } else {
        let len = healthy.len();
        let idx = *next_index % len;
        let chosen = healthy[idx].clone();
        *next_index = (idx + 1) % len;
        proof {
            lemma_healthy_seq_member(servers@, idx as int);
        }
        Some(chosen)
    }
}

/// The length of the prefix of `h` that stands before its first comma: the
/// whole of `h` where no comma occurs.
pub open spec fn comma_split(h: Seq<char>) -> int
    decreases h.len(),
{
    if h.len() == 0 {
        0
    } else if h[0] == ',' {
        0
    } else {
        1 + comma_split(h.drop_first())
    }
}

/// `comma_split` is pinned by what the characters show: no comma before
/// `k`, and a comma at `k` unless `k` is the end.
proof fn lemma_comma_split_at(h: Seq<char>, k: int)
    requires
        0 <= k <= h.len(),
        forall|j: int| 0 <= j < k ==> h[j] != ',',
        k < h.len() ==> h[k] == ',',
    ensures
        comma_split(h) == k,
    decreases h.len(),
{
    if k > 0 {
        assert(h[0] != ',');
        assert forall|j: int| 0 <= j < k - 1 implies h.drop_first()[j] != ',' by {
            assert(h[j + 1] != ',');
        }
        lemma_comma_split_at(h.drop_first(), k - 1);
    }
}

/// The first value of a comma-separated header: the prefix before the first
/// comma, or the whole value where no comma occurs.
pub open spec fn first_value(h: Seq<char>) -> Seq<char> {
    h.subrange(0, comma_split(h))
}

/// The client key of a request: the first value of the forwarded-for header
/// where one is present, else the shared fallback key.
pub open spec fn client_key_spec(forwarded_for: Option<&str>) -> Seq<char> {
    match forwarded_for {
        Some(h) => first_value(h@),
        None => "unknown"@,
    }
}

/// The first value of the comma-separated header value `h`, as a string of
/// its own.
pub fn first_header_value(h: &str) -> (v: String)
    ensures
        v@ == first_value(h@),
{
    let n = h.unicode_len();
    let mut i: usize = 0;
    while i < n
        invariant
            n == h@.len(),
            i <= n,
            forall|j: int| 0 <= j < i ==> h@[j] != ',',
        decreases n - i,
    {
        if h.get_char(i) == ',' {
            let prefix = h.substring_char(0, i);
            proof {
                lemma_comma_split_at(h@, i as int);
            }
            return prefix.to_owned();
        }
        i += 1;
    }
    proof {
        lemma_comma_split_at(h@, n as int);
        assert(h@.subrange(0, h@.len() as int) =~= h@);
    }
    h.to_owned()
}

pub fn client_key(forwarded_for: Option<&str>) -> (k: String)
    ensures
        k@ == client_key_spec(forwarded_for),
{
    match forwarded_for {
        Some(h) => first_header_value(h),
        None => "unknown".to_owned(),
    }
}

/// The path-and-query part a forwarded request keeps: the original's, or
/// `/` where the original request line has none.
pub open spec fn request_path_spec(path_and_query: Option<&str>) -> Seq<char> {
    match path_and_query {
        Some(p) => p@,
        None => "/"@,
    }
}

/// The outbound URI: the chosen server's URL followed by the original
/// request's path and query.
pub fn upstream_uri(url: &str, path_and_query: Option<&str>) -> (uri: String)
    ensures
        uri@ == url@ + request_path_spec(path_and_query),
{
    let mut uri = url.to_owned();
    match path_and_query {
        Some(p) => uri.append(p),
        None => uri.append("/"),
    }
    uri
}

/// What the pipeline decided for one request: a response the proxy itself
/// produces, or the URI of the healthy server the request is forwarded to.
pub enum RouteOutcome {
    /// Answer the client directly with this status and body.
    Respond { status: u16, body: String },
    /// Relay the request, rewritten to this URI.
    Forward { uri: String },
}

/// One request through the pipeline: the rate limiter is consulted under the
/// request's client key; a denied request is answered 429 at once; an
/// admitted one either finds no healthy server and is answered 503, or is
/// forwarded to the round-robin choice with the cursor advanced.
pub fn route_request(
    rate_limiter: &mut RateLimiter,
    servers: &Vec<UpstreamServer>,
    next_index: &mut usize,
    forwarded_for: Option<&str>,
    path_and_query: Option<&str>,
    now: u64,
) -> (r: RouteOutcome)
    requires
        old(rate_limiter).wf(),
    ensures
        final(rate_limiter).wf(),
        final(rate_limiter).window() == old(rate_limiter).window(),
        final(rate_limiter).max_requests() == old(rate_limiter).max_requests(),
        final(rate_limiter)@ == limiter_step(
            old(rate_limiter)@,
            old(rate_limiter).window(),
            old(rate_limiter).max_requests(),
            client_key_spec(forwarded_for),
            now,
        ),
        ({
            let admitted = admit_decision(
                old(rate_limiter)@,
                old(rate_limiter).window(),
                old(rate_limiter).max_requests(),
                client_key_spec(forwarded_for),
                now,
            );
            let h = healthy_seq(servers@);
            &&& !admitted ==> (r matches RouteOutcome::Respond { status, body } && status == 429
                && body@ == "Too Many Requests\n"@) && *final(next_index) == *old(next_index)
            &&& admitted && h.len() == 0 ==> (r matches RouteOutcome::Respond { status, body }
                && status == 503 && body@ == "Service Unavailable"@) && *final(next_index)
                == *old(next_index)
            &&& admitted && h.len() > 0 ==> (r matches RouteOutcome::Forward { uri } && uri@
                == h[*old(next_index) as int % h.len() as int].url@ + request_path_spec(
                path_and_query,
            )) && *final(next_index) as int == (*old(next_index) as int % h.len() as int + 1)
                % h.len() as int
        }),
{
    let key = client_key(forwarded_for);
    let admitted = rate_limiter.check(key.as_str(), now);
    if !admitted {
        return RouteOutcome::Respond { status: 429, body: "Too Many Requests\n".to_owned() };
    }
    match select_next_server(servers, next_index) {
        Some(server) => RouteOutcome::Forward {
            uri: upstream_uri(server.url.as_str(), path_and_query),
        },
        None => RouteOutcome::Respond { status: 503, body: "Service Unavailable".to_owned() },
    }
}

} // verus!
