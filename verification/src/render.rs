//! Tabular rendering of a trace: one header row and one row of nine
//! text cells per hop, in trace order. Lost probes render too, as
//! sentinel rows with a zero round-trip time.

use crate::addr::{dec_digits, dec_str};
use crate::hop::{NodeView, RouteNode};
use vstd::prelude::*;
use vstd::string::StringExecFns;

verus! {

/// The nine column names, in order.
pub open spec fn header_cells() -> Seq<Seq<char>> {
    seq![
        "hop"@,
        "ip_address"@,
        "hostname"@,
        "duration"@,
        "city"@,
        "country"@,
        "region"@,
        "org"@,
        "location"@,
    ]
}

/// The nine cells of one hop's row: the hop number and the round-trip
/// time in plain decimal, the other fields as recorded.
pub open spec fn row_cells(n: NodeView) -> Seq<Seq<char>> {
    seq![
        dec_digits(n.hop as nat),
        n.ip_address,
        n.hostname,
        dec_digits(n.duration as nat),
        n.city,
        n.country,
        n.region,
        n.org,
        n.location,
    ]
}

/// Builds the header row.
pub fn header_row() -> (r: Vec<String>)
    ensures
        r@.map_values(|s: String| s@) == header_cells(),
{
    let mut v: Vec<String> = Vec::new();
    v.push(String::from_str("hop"));
    v.push(String::from_str("ip_address"));
    v.push(String::from_str("hostname"));
    v.push(String::from_str("duration"));
    v.push(String::from_str("city"));
    v.push(String::from_str("country"));
    v.push(String::from_str("region"));
    v.push(String::from_str("org"));
    v.push(String::from_str("location"));
    proof {
        assert(v@.map_values(|s: String| s@) =~= header_cells());
    }
    v
}

/// Builds one hop's row.
pub fn node_row(n: &RouteNode) -> (r: Vec<String>)
    ensures
        r@.map_values(|s: String| s@) == row_cells(n@),
{
    let mut v: Vec<String> = Vec::new();
    v.push(dec_str(n.hop as u64));
    v.push(n.ip_address.clone());
    v.push(n.hostname.clone());
    v.push(dec_str(n.duration));
    v.push(n.city.clone());
    v.push(n.country.clone());
    v.push(n.region.clone());
    v.push(n.org.clone());
    v.push(n.location.clone());
    proof {
        assert(v@.map_values(|s: String| s@) =~= row_cells(n@));
    }
    v
}

/// The whole table: the header row, then one row per hop in trace
/// order. A trace of `k` hops renders as `k + 1` rows.
pub fn render_rows(hops: &Vec<RouteNode>) -> (rows: Vec<Vec<String>>)
    ensures
        rows@.len() == hops@.len() + 1,
        rows@[0]@.map_values(|s: String| s@) == header_cells(),
        forall|i: int|
            0 <= i < hops@.len() ==> (#[trigger] rows@[i + 1]@).map_values(|s: String| s@)
                == row_cells(hops@[i]@),
{
    let mut rows: Vec<Vec<String>> = Vec::new();
    rows.push(header_row());
    let mut idx: usize = 0;
    while idx < hops.len()
        invariant
            idx <= hops@.len(),
            rows@.len() == idx + 1,
            rows@[0]@.map_values(|s: String| s@) == header_cells(),
            forall|i: int|
                0 <= i < idx ==> (#[trigger] rows@[i + 1]@).map_values(|s: String| s@)
                    == row_cells(hops@[i]@),
        decreases hops@.len() - idx,
    {
        rows.push(node_row(&hops[idx]));
        idx = idx + 1;
    }
    rows
}

} // verus!
