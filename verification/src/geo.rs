//! Best-effort geolocation metadata for a hop, read from the JSON
//! payload that the lookup service answers with. The payload shape is
//! only loosely contracted, so every field is independently present
//! or absent, and a malformed payload leaves them all absent.

use vstd::prelude::*;

verus! {

/// The string member under a top-level key of a JSON payload: present
/// exactly when the text parses as a JSON object holding a string
/// there. The payload text and the key alone determine it.
pub uninterp spec fn json_text_member(body: Seq<char>, key: Seq<char>) -> Option<Seq<char>>;

/// Geolocation metadata for one hop; every field is independently
/// present or absent.
pub struct GeoInfo {
    pub city: Option<String>,
    pub country: Option<String>,
    pub region: Option<String>,
    pub org: Option<String>,
    pub location: Option<String>,
}

/// The spec-level image of a metadata record.
pub struct GeoView {
    pub city: Option<Seq<char>>,
    pub country: Option<Seq<char>>,
    pub region: Option<Seq<char>>,
    pub org: Option<Seq<char>>,
    pub location: Option<Seq<char>>,
}

/// The text of an optional string, kept optional.
pub open spec fn opt_chars(o: Option<String>) -> Option<Seq<char>> {
    match o {
        Some(s) => Some(s@),
        None => None,
    }
}

impl View for GeoInfo {
    type V = GeoView;

    open spec fn view(&self) -> GeoView {
        GeoView {
            city: opt_chars(self.city),
            country: opt_chars(self.country),
            region: opt_chars(self.region),
            org: opt_chars(self.org),
            location: opt_chars(self.location),
        }
    }
}

/// Relies on serde_json::from_str, Value::get and Value::as_str, whose
/// composed result depends on the text and the key alone: the string
/// member under a top-level key. Text that is not well-formed JSON
/// gives an error, mapped here to `None`; so does a payload that is
/// not an object, has no such member, or holds a non-string there.
#[verifier::external_body]
fn json_text_field(body: &str, key: &str) -> (r: Option<String>)
    ensures
        opt_chars(r) == json_text_member(body@, key@),
{
    match serde_json::from_str::<serde_json::Value>(body) {
        Ok(v) => v.get(key).and_then(|m| m.as_str()).map(|s| s.to_string()),
        Err(_) => None,
    }
}

/// The wholly-absent metadata record, recorded when the lookup failed
/// outright and there is no payload to read.
pub fn geo_unavailable() -> (g: GeoInfo)
    ensures
        g@.city is None,
        g@.country is None,
        g@.region is None,
        g@.org is None,
        g@.location is None,
{
    GeoInfo { city: None, country: None, region: None, org: None, location: None }
}

/// Reads the five optional text fields of a geolocation payload: each
/// is the payload's string member under its key, independently of the
/// other four. Extraction is best-effort — a missing or non-string
/// member, or a payload that is not JSON at all, leaves that field
/// absent and never fails the hop.
pub fn geo_from_json(body: &str) -> (g: GeoInfo)
    ensures
        g@.city == json_text_member(body@, "city"@),
        g@.country == json_text_member(body@, "country"@),
        g@.region == json_text_member(body@, "region"@),
        g@.org == json_text_member(body@, "org"@),
        g@.location == json_text_member(body@, "loc"@),
{
    GeoInfo {
        city: json_text_field(body, "city"),
        country: json_text_field(body, "country"),
        region: json_text_field(body, "region"),
        org: json_text_field(body, "org"),
        location: json_text_field(body, "loc"),
    }
}

} // verus!
