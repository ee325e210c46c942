//! The engine's global guarantees, stated over `run`: what a whole
//! trace looks like, for every destination and every sequence of
//! observations the probes could hand back.

use crate::addr::{ipv4_chars, Ipv4};
use crate::hop::sentinel_view;
use crate::trace::{event_stops, node_of_event, run, EventView, MAX_HOPS};
use vstd::prelude::*;

verus! {

/// Every trace is bounded by the hop budget and by the number of
/// probes, and its hops are numbered consecutively with no gaps or
/// repeats: position `i` of a run that starts at `hop0` carries hop
/// number `hop0 + i`.
pub proof fn lemma_run_hop_numbering(dest: Ipv4, events: Seq<EventView>, hop0: u32)
    requires
        1 <= hop0 <= MAX_HOPS,
    ensures
        run(dest, events, hop0).len() <= MAX_HOPS + 1 - hop0,
        run(dest, events, hop0).len() <= events.len(),
        forall|i: int|
            0 <= i < run(dest, events, hop0).len() ==> (#[trigger] run(dest, events, hop0)[i]).hop
                == hop0 + i,
    decreases events.len(),
{
    if events.len() == 0 || hop0 > MAX_HOPS {
    } else if event_stops(events[0], dest) || hop0 == MAX_HOPS {
    } else {
        lemma_run_hop_numbering(dest, events.drop_first(), (hop0 + 1) as u32);
        assert(run(dest, events, hop0) == seq![node_of_event(events[0], hop0)] + run(
            dest,
            events.drop_first(),
            (hop0 + 1) as u32,
        ));
    }
}

/// While no responder is the destination itself, the trace records
/// every observation in order, one hop per probe, capped at the hop
/// budget — and hop `i` is exactly what probe `i` observed.
pub proof fn lemma_run_no_stop(dest: Ipv4, events: Seq<EventView>, hop0: u32)
    requires
        1 <= hop0 <= MAX_HOPS + 1,
        forall|i: int| 0 <= i < events.len() ==> !event_stops(#[trigger] events[i], dest),
    ensures
        events.len() <= MAX_HOPS + 1 - hop0 ==> run(dest, events, hop0).len() == events.len(),
        events.len() > MAX_HOPS + 1 - hop0 ==> run(dest, events, hop0).len() == MAX_HOPS + 1
            - hop0,
        forall|i: int|
            0 <= i < run(dest, events, hop0).len() ==> #[trigger] run(dest, events, hop0)[i]
                == node_of_event(events[i], (hop0 + i) as u32),
    decreases events.len(),
{
    if events.len() == 0 || hop0 > MAX_HOPS {
    } else if hop0 == MAX_HOPS {
    } else {
        lemma_run_no_stop(dest, events.drop_first(), (hop0 + 1) as u32);
    }
}

/// If probe `k` (0-based) is the first whose responder is the
/// destination itself, and it lies within the hop budget, the trace
/// ends exactly there: `k + 1` hops, each one what its probe observed,
/// and the last hop's address is the destination's own text.
pub proof fn lemma_run_stops_at_match(dest: Ipv4, events: Seq<EventView>, hop0: u32, k: int)
    requires
        1 <= hop0,
        hop0 + k <= MAX_HOPS,
        0 <= k < events.len(),
        event_stops(events[k], dest),
        forall|i: int| 0 <= i < k ==> !event_stops(#[trigger] events[i], dest),
    ensures
        run(dest, events, hop0).len() == k + 1,
        forall|i: int|
            0 <= i <= k ==> #[trigger] run(dest, events, hop0)[i] == node_of_event(
                events[i],
                (hop0 + i) as u32,
            ),
        run(dest, events, hop0).last().ip_address == ipv4_chars(dest),
    decreases k,
{
    if k == 0 {
    } else {
        lemma_run_stops_at_match(dest, events.drop_first(), (hop0 + 1) as u32, k - 1);
    }
}

/// When every probe times out, the trace is exactly `MAX_HOPS`
/// sentinel hops: unknown fields and zero round-trip time in each.
pub proof fn lemma_trace_all_timeouts(dest: Ipv4, events: Seq<EventView>)
    requires
        events.len() == MAX_HOPS,
        forall|i: int| 0 <= i < events.len() ==> #[trigger] events[i] is Timeout,
    ensures
        run(dest, events, 1).len() == MAX_HOPS,
        forall|i: int|
            0 <= i < MAX_HOPS ==> #[trigger] run(dest, events, 1)[i] == sentinel_view(
                (i + 1) as u32,
            ),
{
    lemma_run_no_stop(dest, events, 1);
}

/// A single answered probe at hop `k` among timeouts. When its
/// responder is not the destination, the trace still runs the whole
/// hop budget: hop `k` is the one populated hop and every other hop is
/// the sentinel. When its responder is the destination, the trace has
/// exactly `k` hops and ends on the destination's address.
pub proof fn lemma_trace_single_reply(dest: Ipv4, events: Seq<EventView>, k: int)
    requires
        1 <= k <= MAX_HOPS,
        events.len() == MAX_HOPS,
        events[k - 1] is Reply,
        forall|i: int| 0 <= i < events.len() && i != k - 1 ==> #[trigger] events[i] is Timeout,
    ensures
        !event_stops(events[k - 1], dest) ==> {
            &&& run(dest, events, 1).len() == MAX_HOPS
            &&& run(dest, events, 1)[k - 1] == node_of_event(events[k - 1], k as u32)
            &&& forall|i: int|
                0 <= i < MAX_HOPS && i != k - 1 ==> #[trigger] run(dest, events, 1)[i]
                    == sentinel_view((i + 1) as u32)
        },
        event_stops(events[k - 1], dest) ==> {
            &&& run(dest, events, 1).len() == k
            &&& run(dest, events, 1).last().ip_address == ipv4_chars(dest)
        },
{
    if event_stops(events[k - 1], dest) {
        lemma_run_stops_at_match(dest, events, 1, k - 1);
    } else {
        lemma_run_no_stop(dest, events, 1);
    }
}

} // verus!
