//! One discovered (or failed) point along the path, and the exact
//! shapes a recorded hop can take: the sentinel hop after a timeout,
//! and the populated hop after a reply.

use crate::addr::{format_ipv4, ipv4_chars, Ipv4};
use crate::geo::{opt_chars, GeoInfo, GeoView};
use vstd::prelude::*;
use vstd::string::StringExecFns;

verus! {

/// The sentinel text standing for an unavailable field.
pub open spec fn unknown_chars() -> Seq<char> {
    "***"@
}

/// The sentinel string standing for an unavailable field.
pub fn unknown_string() -> (r: String)
    ensures
        r@ == unknown_chars(),
{
    String::from_str("***")
}

/// One discovered (or failed) point along the path.
#[derive(Debug)]
pub struct RouteNode {
    /// 1-based position along the path.
    pub hop: u32,
    /// The responding node's address text, or the sentinel after a timeout.
    pub ip_address: String,
    /// Reverse-resolved name, or the sentinel.
    pub hostname: String,
    /// Round-trip time in nanoseconds; zero when no reply arrived.
    pub duration: u64,
    /// Geolocation metadata, each field the sentinel when unavailable.
    pub city: String,
    pub country: String,
    pub region: String,
    pub org: String,
    pub location: String,
}

/// The spec-level image of a recorded hop.
pub struct NodeView {
    pub hop: u32,
    pub ip_address: Seq<char>,
    pub hostname: Seq<char>,
    pub duration: u64,
    pub city: Seq<char>,
    pub country: Seq<char>,
    pub region: Seq<char>,
    pub org: Seq<char>,
    pub location: Seq<char>,
}

impl View for RouteNode {
    type V = NodeView;

    open spec fn view(&self) -> NodeView {
        NodeView {
            hop: self.hop,
            ip_address: self.ip_address@,
            hostname: self.hostname@,
            duration: self.duration,
            city: self.city@,
            country: self.country@,
            region: self.region@,
            org: self.org@,
            location: self.location@,
        }
    }
}

/// A present field's text, or the sentinel.
pub open spec fn or_unknown(o: Option<Seq<char>>) -> Seq<char> {
    match o {
        Some(s) => s,
        None => unknown_chars(),
    }
}

/// The hop recorded when a probe got no answer: every field the
/// sentinel, zero round-trip time.
pub open spec fn sentinel_view(hop: u32) -> NodeView {
    NodeView {
        hop,
        ip_address: unknown_chars(),
        hostname: unknown_chars(),
        duration: 0,
        city: unknown_chars(),
        country: unknown_chars(),
        region: unknown_chars(),
        org: unknown_chars(),
        location: unknown_chars(),
    }
}

/// The hop recorded when a probe was answered: address and round-trip
/// time from the probe itself, name and metadata best-effort.
pub open spec fn reply_view(
    hop: u32,
    addr: Ipv4,
    rtt_nanos: u64,
    hostname: Option<Seq<char>>,
    geo: GeoView,
) -> NodeView {
    NodeView {
        hop,
        ip_address: ipv4_chars(addr),
        hostname: or_unknown(hostname),
        duration: rtt_nanos,
        city: or_unknown(geo.city),
        country: or_unknown(geo.country),
        region: or_unknown(geo.region),
        org: or_unknown(geo.org),
        location: or_unknown(geo.location),
    }
}

/// Builds the sentinel hop for a probe that got no answer.
pub fn sentinel_node(hop: u32) -> (n: RouteNode)
    ensures
        n@ == sentinel_view(hop),
{
    RouteNode {
        hop,
        ip_address: unknown_string(),
        hostname: unknown_string(),
        duration: 0,
        city: unknown_string(),
        country: unknown_string(),
        region: unknown_string(),
        org: unknown_string(),
        location: unknown_string(),
    }
}

/// A present field, or the sentinel string.
fn opt_or_unknown(o: Option<String>) -> (r: String)
    ensures
        r@ == or_unknown(opt_chars(o)),
{
    match o {
        Some(s) => s,
        None => unknown_string(),
    }
}

/// Builds the populated hop for an answered probe. The address and
/// the round-trip time come from the probe alone: the best-effort
/// name and metadata cannot alter them.
pub fn reply_node(
    hop: u32,
    addr: Ipv4,
    rtt_nanos: u64,
    hostname: Option<String>,
    geo: GeoInfo,
) -> (n: RouteNode)
    ensures
        n@ == reply_view(hop, addr, rtt_nanos, opt_chars(hostname), geo@),
{
    let GeoInfo { city, country, region, org, location } = geo;
    RouteNode {
        hop,
        ip_address: format_ipv4(addr),
        hostname: opt_or_unknown(hostname),
        duration: rtt_nanos,
        city: opt_or_unknown(city),
        country: opt_or_unknown(country),
        region: opt_or_unknown(region),
        org: opt_or_unknown(org),
        location: opt_or_unknown(location),
    }
}

/// Whichever name and metadata the lookups hand back — including a
/// total enrichment failure — the recorded hop's number, address and
/// round-trip time are the same.
pub proof fn lemma_enrichment_independent(
    hop: u32,
    addr: Ipv4,
    rtt_nanos: u64,
    h1: Option<Seq<char>>,
    h2: Option<Seq<char>>,
    g1: GeoView,
    g2: GeoView,
)
    ensures
        reply_view(hop, addr, rtt_nanos, h1, g1).hop == reply_view(hop, addr, rtt_nanos, h2, g2).hop,
        reply_view(hop, addr, rtt_nanos, h1, g1).ip_address == reply_view(
            hop,
            addr,
            rtt_nanos,
            h2,
            g2,
        ).ip_address,
        reply_view(hop, addr, rtt_nanos, h1, g1).duration == reply_view(
            hop,
            addr,
            rtt_nanos,
            h2,
            g2,
        ).duration,
{
}

} // verus!
