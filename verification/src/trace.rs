//! The hop-discovery engine: a bounded, single-outstanding-probe state
//! machine. The caller performs one probe per step, with the hop-limit
//! field set to the hop number the engine asks for, and hands back what
//! it observed; the engine records the hop and decides whether the
//! trace goes on. Socket work, reverse resolution and the geolocation
//! lookup all happen outside; the engine is total over whatever they
//! hand back.

use crate::addr::Ipv4;
use crate::geo::{opt_chars, GeoInfo, GeoView};
use crate::hop::{reply_node, reply_view, sentinel_node, sentinel_view, NodeView, RouteNode};
use vstd::prelude::*;

verus! {

/// The greatest number of hops one trace probes.
pub const MAX_HOPS: u32 = 30;

/// What one probe observed: a reply from some node, or nothing within
/// the timeout (a send failure counts as a timeout).
pub enum EventView {
    Reply { addr: Ipv4, rtt_nanos: u64, hostname: Option<Seq<char>>, geo: GeoView },
    Timeout,
}

/// The hop that recording an observation appends.
pub open spec fn node_of_event(ev: EventView, hop: u32) -> NodeView {
    match ev {
        EventView::Reply { addr, rtt_nanos, hostname, geo } => reply_view(
            hop,
            addr,
            rtt_nanos,
            hostname,
            geo,
        ),
        EventView::Timeout => sentinel_view(hop),
    }
}

/// Whether an observation ends the trace at its hop: the responder is
/// the destination itself. A timeout never ends the trace early.
pub open spec fn event_stops(ev: EventView, dest: Ipv4) -> bool {
    match ev {
        EventView::Reply { addr, .. } => addr == dest,
        EventView::Timeout => false,
    }
}

/// The trace that a destination and a sequence of observations
/// determine, probing hops `hop0`, `hop0 + 1`, ...: one hop per
/// observation, stopping at the destination's own reply or after hop
/// `MAX_HOPS`, whichever comes first.
pub open spec fn run(dest: Ipv4, events: Seq<EventView>, hop0: u32) -> Seq<NodeView>
    decreases events.len(),
{
    if events.len() == 0 || hop0 < 1 || hop0 > MAX_HOPS {
        Seq::empty()
    } else {
        let node = node_of_event(events[0], hop0);
        if event_stops(events[0], dest) || hop0 == MAX_HOPS {
            seq![node]
        } else {
            seq![node] + run(dest, events.drop_first(), (hop0 + 1) as u32)
        }
    }
}

/// Appending one more observation to a run that has not stopped yet
/// appends exactly that observation's hop.
proof fn lemma_run_snoc(dest: Ipv4, events: Seq<EventView>, ev: EventView, hop0: u32)
    requires
        1 <= hop0,
        hop0 + events.len() <= MAX_HOPS,
        forall|i: int| 0 <= i < events.len() ==> !event_stops(#[trigger] events[i], dest),
    ensures
        run(dest, events.push(ev), hop0) == run(dest, events, hop0).push(
            node_of_event(ev, (hop0 + events.len()) as u32),
        ),
    decreases events.len(),
{
    let node = node_of_event(ev, (hop0 + events.len()) as u32);
    if events.len() == 0 {
        let one = events.push(ev);
        assert(one[0] == ev);
        assert(one.drop_first() =~= Seq::<EventView>::empty());
        assert(node == node_of_event(ev, hop0));
        if event_stops(ev, dest) || hop0 == MAX_HOPS {
            assert(run(dest, one, hop0) =~= run(dest, events, hop0).push(node));
        } else {
            assert(run(dest, one, hop0) == seq![node] + run(
                dest,
                one.drop_first(),
                (hop0 + 1) as u32,
            ));
            assert(run(dest, one, hop0) =~= run(dest, events, hop0).push(node));
        }
    } else {
        assert(events.push(ev)[0] == events[0]);
        assert(events.push(ev).drop_first() =~= events.drop_first().push(ev));
        lemma_run_snoc(dest, events.drop_first(), ev, (hop0 + 1) as u32);
        assert(run(dest, events.push(ev), hop0) =~= run(dest, events, hop0).push(node));
    }
}

/// The engine. `hops` is the trace so far, in hop order; `done` says
/// whether the trace is complete; `events` is the ghost record of
/// every observation handed in so far.
pub struct Tracer {
    pub dest: Ipv4,
    pub hops: Vec<RouteNode>,
    pub done: bool,
    pub events: Ghost<Seq<EventView>>,
}

impl Tracer {
    /// What the engine maintains between steps: the recorded hops are
    /// exactly the run of the observations so far, one hop each; no
    /// observation before the last one ended the trace; and the trace
    /// is complete exactly when the last responder was the destination
    /// or the hop budget is spent.
    pub open spec fn inv(self) -> bool {
        &&& self.hops@.map_values(|n: RouteNode| n@) == run(self.dest, self.events@, 1)
        &&& self.hops@.len() == self.events@.len()
        &&& self.hops@.len() <= MAX_HOPS
        &&& forall|i: int|
            0 <= i < self.events@.len() - 1 ==> !event_stops(
                #[trigger] self.events@[i],
                self.dest,
            )
        &&& self.done <==> (self.events@.len() > 0 && (event_stops(self.events@.last(), self.dest)
            || self.events@.len() == MAX_HOPS))
    }

    /// Starts a trace toward a destination: nothing recorded yet.
    pub fn new(dest: Ipv4) -> (t: Tracer)
        ensures
            t.inv(),
            t.dest == dest,
            t.hops@.len() == 0,
            !t.done,
            t.events@ == Seq::<EventView>::empty(),
    {
        let t = Tracer { dest, hops: Vec::new(), done: false, events: Ghost(Seq::empty()) };
        proof {
            assert(t.hops@.map_values(|n: RouteNode| n@) =~= run(dest, t.events@, 1));
        }
        t
    }

    /// The hop number the next probe should carry in its hop-limit
    /// field: one past the hops recorded so far.
    pub fn next_hop(&self) -> (h: u32)
        requires
            self.inv(),
            !self.done,
        ensures
            h == self.hops@.len() + 1,
            1 <= h <= MAX_HOPS,
    {
        self.hops.len() as u32 + 1
    }

    /// Every observation before the last leaves the trace running.
    proof fn lemma_no_stop_yet(self)
        requires
            self.inv(),
            !self.done,
        ensures
            forall|i: int|
                0 <= i < self.events@.len() ==> !event_stops(#[trigger] self.events@[i], self.dest),
            self.events@.len() < MAX_HOPS,
    {
    }

    /// Records a probe that got no answer within the timeout (or whose
    /// send failed): the sentinel hop joins the trace, and the trace
    /// goes on unless the hop budget is now spent.
    pub fn record_timeout(&mut self)
        requires
            old(self).inv(),
            !old(self).done,
        ensures
            final(self).inv(),
            final(self).dest == old(self).dest,
            final(self).events@ == old(self).events@.push(EventView::Timeout),
            final(self).hops@.len() == old(self).hops@.len() + 1,
            final(self).hops@.drop_last() == old(self).hops@,
            final(self).hops@.last()@ == sentinel_view((old(self).hops@.len() + 1) as u32),
            final(self).done <==> final(self).hops@.len() == MAX_HOPS,
    {
        proof {
            self.lemma_no_stop_yet();
        }
        let hop = self.hops.len() as u32 + 1;
        let node = sentinel_node(hop);
        proof {
            lemma_run_snoc(self.dest, self.events@, EventView::Timeout, 1);
        }
        self.events = Ghost(self.events@.push(EventView::Timeout));
        self.hops.push(node);
        if hop == MAX_HOPS {
            self.done = true;
        }
        proof {
            assert(self.hops@.drop_last() =~= old(self).hops@);
            assert(self.hops@.map_values(|n: RouteNode| n@) =~= old(self).hops@.map_values(
                |n: RouteNode| n@,
            ).push(node@));
        }
    }

    /// Records an answered probe: the populated hop joins the trace,
    /// and the trace ends here exactly when the responder is the
    /// destination itself or the hop budget is now spent.
    pub fn record_reply(
        &mut self,
        addr: Ipv4,
        rtt_nanos: u64,
        hostname: Option<String>,
        geo: GeoInfo,
    )
        requires
            old(self).inv(),
            !old(self).done,
        ensures
            final(self).inv(),
            final(self).dest == old(self).dest,
            final(self).events@ == old(self).events@.push(
                (EventView::Reply {
                    addr,
                    rtt_nanos,
                    hostname: opt_chars(hostname),
                    geo: geo@,
                }),
            ),
            final(self).hops@.len() == old(self).hops@.len() + 1,
            final(self).hops@.drop_last() == old(self).hops@,
            final(self).hops@.last()@ == reply_view(
                (old(self).hops@.len() + 1) as u32,
                addr,
                rtt_nanos,
                opt_chars(hostname),
                geo@,
            ),
            final(self).done <==> (addr == old(self).dest || final(self).hops@.len() == MAX_HOPS),
    {
        proof {
            self.lemma_no_stop_yet();
        }
        let ghost ev = EventView::Reply {
            addr,
            rtt_nanos,
            hostname: opt_chars(hostname),
            geo: geo@,
        };
        let hop = self.hops.len() as u32 + 1;
        let stop = addr == self.dest;
        let node = reply_node(hop, addr, rtt_nanos, hostname, geo);
        proof {
            lemma_run_snoc(self.dest, self.events@, ev, 1);
        }
        self.events = Ghost(self.events@.push(ev));
        self.hops.push(node);
        if stop || hop == MAX_HOPS {
            self.done = true;
        }
        proof {
            assert(self.hops@.drop_last() =~= old(self).hops@);
            assert(self.hops@.map_values(|n: RouteNode| n@) =~= old(self).hops@.map_values(
                |n: RouteNode| n@,
            ).push(node@));
        }
    }
}

} // verus!
