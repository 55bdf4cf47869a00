//! Core of a reverse-proxy load balancer: a registry of upstream servers
//! with per-server health flags, a fixed-window rate limiter keyed by
//! client identifier, and a round-robin selector over the healthy servers,
//! wired together by a request-routing pipeline.

pub mod load_balancer;
pub mod proxy_handler;
pub mod rate_limiter;
pub mod upstream;
