//! A TTL-incrementing ICMP traceroute core. The engine drives a
//! bounded loop over hop counts: the caller probes one hop at a time
//! and hands back what it observed, and the engine records the hop,
//! numbers it, and decides whether the trace goes on — until the
//! destination itself answers or the hop budget is spent. Address
//! text, usage checking, hop records and the tabular rendering are
//! verified here; sockets, reverse resolution and the geolocation
//! fetch stay with the caller.

pub mod addr;
pub mod args;
pub mod geo;
pub mod hop;
pub mod laws;
pub mod render;
pub mod trace;
