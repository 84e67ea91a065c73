use vstd::prelude::*;
use crate::graph::arcs_of;
use crate::registry::{
    EdgeDecl, EdgeView, Event, EventKind, EventView, Handle, RegError, Registry, RegistryView,
    edge_views, event_views, lemma_open_index, replay,
};

verus! {

/// The registry that a log of events and a list of edge declarations rebuild,
/// or `None` where the log is not one that a registry could have written.
pub open spec fn rebuilt(instance: u64, events: Seq<EventView>, edges: Seq<EdgeView>) -> Option<RegistryView> {
    match replay(events) {
        Some(actions) => Some(RegistryView { instance, actions, events, edges }),
        None => None,
    }
}

/// Once a prefix of a log fails to replay, the whole log does.
pub proof fn lemma_replay_prefix_none(events: Seq<EventView>, k: int)
    requires
        0 <= k <= events.len(),
        replay(events.take(k)) is None,
    ensures
        replay(events) is None,
    decreases events.len() - k,
{
    if k < events.len() {
        assert(events.take(k + 1).drop_last() =~= events.take(k));
        lemma_replay_prefix_none(events, k + 1);
    } else {
        assert(events.take(k) =~= events);
    }
}

/// A well-formed registry is exactly what its own log and edges rebuild, so
/// the rebuilt graph has the same nodes in the same order, the same arcs, and
/// the same opens and closes on each thread.
pub proof fn lemma_round_trip(v: RegistryView)
    requires
        v.wf(),
    ensures
        rebuilt(v.instance, v.events, v.edges) == Some(v),
        ({
            let w = rebuilt(v.instance, v.events, v.edges)->Some_0;
            &&& w.actions == v.actions
            &&& w.events == v.events
            &&& arcs_of(w.actions, w.edges) == arcs_of(v.actions, v.edges)
        }),
{
}

/// The persisted form of a run: the open and close events in the order they
/// happened (the position is the sequence number), and the edge declarations
/// in the order they were made.
pub struct Durable {
    pub events: Vec<Event>,
    pub edges: Vec<EdgeDecl>,
}

impl Durable {
    /// The log and edge declarations of `reg`.
    pub fn capture(reg: &Registry) -> (r: Durable)
        ensures
            event_views(r.events@) == reg@.events,
            edge_views(r.edges@) == reg@.edges,
    {
        let mut events: Vec<Event> = Vec::new();
        let n = reg.event_count();
        let mut i: usize = 0;
        while i < n
            invariant
                n == reg@.events.len(),
                i <= n,
                events@.len() == i,
                forall|k: int| 0 <= k < i ==> (#[trigger] events@[k])@ == reg@.events[k],
            decreases n - i,
        {
            events.push(reg.event(i).copy());
            i = i + 1;
        }
        let mut edges: Vec<EdgeDecl> = Vec::new();
        let m = reg.edge_count();
        let mut j: usize = 0;
        while j < m
            invariant
                m == reg@.edges.len(),
                j <= m,
                edges@.len() == j,
                forall|k: int| 0 <= k < j ==> (#[trigger] edges@[k])@ == reg@.edges[k],
            decreases m - j,
        {
            edges.push(reg.edge(j).copy());
            j = j + 1;
        }
        assert(event_views(events@) =~= reg@.events);
        assert(edge_views(edges@) =~= reg@.edges);
        Durable { events, edges }
    }

    /// Replays the log into a fresh registry with the given instance number,
    /// then declares the edges. Fails where an event could not have happened:
    /// `DuplicateOpen` for an open of a label already open on its thread,
    /// `InvalidHandle` for a close of one that is not.
    pub fn rebuild(&self, instance: u64) -> (r: Result<Registry, RegError>)
        ensures
            r is Ok <==> rebuilt(instance, event_views(self.events@), edge_views(self.edges@)) is Some,
            r matches Ok(reg) ==> Some(reg@) == rebuilt(
                instance,
                event_views(self.events@),
                edge_views(self.edges@),
            ),
            r matches Ok(reg) ==> reg@.wf(),
    {
        let ghost evs = event_views(self.events@);
        let ghost eds = edge_views(self.edges@);
        let mut reg = Registry::new(instance);
        let n = self.events.len();
        let mut i: usize = 0;
        assert(evs.take(0) =~= Seq::<EventView>::empty());
        while i < n
            invariant
                n == self.events@.len(),
                evs == event_views(self.events@),
                i <= n,
                reg@.wf(),
                reg@.instance == instance,
                reg@.events == evs.take(i as int),
                reg@.edges == Seq::<EdgeView>::empty(),
            decreases n - i,
        {
            let e = &self.events[i];
            assert(e@ == evs[i as int]);
            assert(evs.take(i + 1).drop_last() =~= evs.take(i as int));
            assert(evs.take(i + 1).last() == e@);
            match e.kind {
                EventKind::Open => {
                    match reg.open(e.thread, e.label.clone()) {
                        Ok(_) => {
                            assert(reg@.events =~= evs.take(i + 1));
                        },
                        Err(err) => {
                            proof {
                                lemma_replay_prefix_none(evs, i + 1);
                            }
                            return Err(err);
                        },
                    }
                },
                EventKind::Close => {
                    match reg.find_open(e.thread, &e.label) {
                        Some(k) => {
                            proof {
                                lemma_open_index(reg@.actions, e.thread, e.label@);
                            }
                            let _ = reg.close(Handle { instance, index: k });
                            assert(reg@.events =~= evs.take(i + 1));
                        },
                        None => {
                            proof {
                                lemma_replay_prefix_none(evs, i + 1);
                            }
                            return Err(RegError::InvalidHandle);
                        },
                    }
                },
            }
            i = i + 1;
        }
        assert(evs.take(n as int) =~= evs);
        let ghost acts = reg@.actions;
        let m = self.edges.len();
        let mut j: usize = 0;
        assert(eds.take(0) =~= Seq::<EdgeView>::empty());
        while j < m
            invariant
                m == self.edges@.len(),
                eds == edge_views(self.edges@),
                j <= m,
                reg@.wf(),
                reg@.instance == instance,
                reg@.events == evs,
                reg@.actions == acts,
                reg@.edges == eds.take(j as int),
            decreases m - j,
        {
            let d = &self.edges[j];
            assert(d@ == eds[j as int]);
            reg.register_edge(d.kind, d.source.clone(), d.destination.clone());
            assert(reg@.edges =~= eds.take(j + 1));
            j = j + 1;
        }
        assert(eds.take(m as int) =~= eds);
        assert(reg@ == (RegistryView { instance, actions: acts, events: evs, edges: eds }));
        Ok(reg)
    }
}

} // verus!
