use vstd::prelude::*;
use crate::graph::{arcs_of, label_known, leaked, resolved};
use crate::registry::{
    ActionView, EdgeView, Handle, RegError, RegistryView, lemma_after_open_wf, lemma_close_at_wf, lemma_open_index,
    is_open_on, open_index,
};

verus! {

/// Opening a label and then closing the handle that came back succeeds, and
/// leaves the set of leaked actions exactly as it was before the open.
pub proof fn lemma_open_close_not_leaked(v: RegistryView, thread: u64, label: Seq<char>)
    requires
        v.wf(),
        v.actions.len() < usize::MAX,
        v.open_result(thread, label) is Ok,
    ensures
        ({
            let h = v.open_result(thread, label)->Ok_0;
            let v1 = v.after_open(thread, label);
            let v2 = v1.after_close(h);
            &&& v1.close_result(h) == Ok::<(), RegError>(())
            &&& !leaked(v2.actions, h.index as int)
            &&& forall|i: int| leaked(v2.actions, i) == leaked(v.actions, i)
        }),
{
    let h = v.open_result(thread, label)->Ok_0;
    let v1 = v.after_open(thread, label);
    let v2 = v1.after_close(h);
    assert(h.index == v.actions.len());
    assert forall|i: int| leaked(v2.actions, i) == leaked(v.actions, i) by {
        if 0 <= i < v.actions.len() {
            assert(v1.actions[i] == v.actions[i]);
            assert(v2.actions[i] == v.actions[i]);
        }
    }
}

/// A close of `label` by `thread`.
pub open spec fn closes(s: Step, thread: u64, label: Seq<char>) -> bool {
    s.thread == thread && s.op == Op::Close(label)
}

proof fn lemma_stays_open(v: RegistryView, sched: Seq<Step>, thread: u64, label: Seq<char>, j: int)
    requires
        0 <= j < v.actions.len(),
        is_open_on(v.actions[j], thread, label),
        forall|i: int| 0 <= i < sched.len() ==> !closes(#[trigger] sched[i], thread, label),
    ensures
        j < run(v, sched).actions.len(),
        is_open_on(run(v, sched).actions[j], thread, label),
    decreases sched.len(),
{
    if sched.len() > 0 {
        let pre = sched.drop_last();
        assert forall|i: int| 0 <= i < pre.len() implies !closes(#[trigger] pre[i], thread, label) by {
            assert(pre[i] == sched[i]);
        }
        lemma_stays_open(v, pre, thread, label, j);
        let u = run(v, pre);
        let s = sched.last();
        assert(!closes(sched[sched.len() - 1], thread, label));
        match s.op {
            Op::Open(l) => {
                lemma_open_index(u.actions, s.thread, l);
            },
            Op::Close(l) => {
                lemma_open_index(u.actions, s.thread, l);
            },
            Op::Edge(_) => {},
        }
    }
}

/// Once a label is open on a thread, opening it there again fails with
/// `DuplicateOpen` and changes nothing, whatever steps came between, so long
/// as none of them closed that label on that thread.
pub proof fn lemma_double_open_rejected(v: RegistryView, thread: u64, label: Seq<char>, between: Seq<Step>)
    requires
        v.wf(),
        v.open_result(thread, label) is Ok,
        forall|i: int| 0 <= i < between.len() ==> !closes(#[trigger] between[i], thread, label),
    ensures
        ({
            let w = run(v.after_open(thread, label), between);
            &&& w.open_result(thread, label) == Err::<Handle, RegError>(RegError::DuplicateOpen)
            &&& w.after_open(thread, label) == w
        }),
{
    let v1 = v.after_open(thread, label);
    lemma_stays_open(v1, between, thread, label, v.actions.len() as int);
    lemma_open_index(run(v1, between).actions, thread, label);
}

/// The arcs hold no repeats, hold each resolved declaration, and hold nothing else.
pub proof fn lemma_arcs_of(acts: Seq<ActionView>, edges: Seq<EdgeView>)
    ensures
        forall|i: int, j: int|
            0 <= i < j < arcs_of(acts, edges).len() ==> arcs_of(acts, edges)[i] != arcs_of(acts, edges)[j],
        forall|k: int| 0 <= k < edges.len() && resolved(acts, #[trigger] edges[k]) ==> arcs_of(acts, edges).contains(edges[k]),
        forall|a: EdgeView| #[trigger] arcs_of(acts, edges).contains(a) ==> edges.contains(a) && resolved(acts, a),
    decreases edges.len(),
{
    if edges.len() > 0 {
        let pre = edges.drop_last();
        lemma_arcs_of(acts, pre);
        let prev = arcs_of(acts, pre);
        let cur = arcs_of(acts, edges);
        assert forall|k: int| 0 <= k < edges.len() && resolved(acts, #[trigger] edges[k]) implies cur.contains(edges[k]) by {
            if k < edges.len() - 1 {
                assert(pre[k] == edges[k]);
                let t = choose|t: int| 0 <= t < prev.len() && prev[t] == edges[k];
                assert(cur[t] == edges[k]);
            } else if !prev.contains(edges[k]) {
                assert(cur[prev.len() as int] == edges[k]);
            } else {
            }
        }
        assert forall|a: EdgeView| #[trigger] cur.contains(a) implies edges.contains(a) && resolved(acts, a) by {
            let t = choose|t: int| 0 <= t < cur.len() && cur[t] == a;
            if t < prev.len() {
                assert(prev.contains(a));
                let s = choose|s: int| 0 <= s < pre.len() && pre[s] == a;
                assert(edges[s] == a);
            } else {
                assert(edges[edges.len() - 1] == a);
            }
        }
    }
}

/// Each declared edge whose two labels belong to actions that were opened and
/// closed appears in the assembled graph as exactly one arc, however often it
/// was declared.
pub proof fn lemma_edge_one_arc(v: RegistryView, j: int)
    requires
        v.wf(),
        0 <= j < v.edges.len(),
        exists|a: int|
            0 <= a < v.actions.len() && (#[trigger] v.actions[a]).label == v.edges[j].source && !v.actions[a].open,
        exists|b: int|
            0 <= b < v.actions.len() && (#[trigger] v.actions[b]).label == v.edges[j].destination
                && !v.actions[b].open,
    ensures
        exists|i: int|
            0 <= i < arcs_of(v.actions, v.edges).len() && arcs_of(v.actions, v.edges)[i] == v.edges[j]
                && forall|k: int|
                0 <= k < arcs_of(v.actions, v.edges).len() && arcs_of(v.actions, v.edges)[k] == v.edges[j] ==> k
                    == i,
{
    lemma_arcs_of(v.actions, v.edges);
    let arcs = arcs_of(v.actions, v.edges);
    let e = v.edges[j];
    assert(label_known(v.actions, e.source));
    assert(label_known(v.actions, e.destination));
    assert(arcs.contains(e));
    let i = choose|i: int| 0 <= i < arcs.len() && arcs[i] == e;
    assert forall|k: int| 0 <= k < arcs.len() && arcs[k] == e implies k == i by {
        if k < i {
            assert(arcs[k] != arcs[i]);
        } else if k > i {
            assert(arcs[i] != arcs[k]);
        }
    }
}

/// What one logical thread asks of the registry: open a label, close the
/// action it holds open under a label, or declare an edge.
pub enum Op {
    Open(Seq<char>),
    Close(Seq<char>),
    Edge(EdgeView),
}

/// One operation of an interleaved run, with the thread that performed it.
pub struct Step {
    pub thread: u64,
    pub op: Op,
}

/// The registry after one step.
pub open spec fn step(v: RegistryView, s: Step) -> RegistryView {
    match s.op {
        Op::Open(l) => v.after_open(s.thread, l),
        Op::Close(l) => {
            let k = open_index(v.actions, s.thread, l);
            if k >= 0 {
                v.close_at(k)
            } else {
                v
            }
        },
        Op::Edge(e) => v.after_edge(e),
    }
}

/// The registry after a whole interleaving of steps, applied in order.
pub open spec fn run(v: RegistryView, sched: Seq<Step>) -> RegistryView
    decreases sched.len(),
{
    if sched.len() == 0 {
        v
    } else {
        step(run(v, sched.drop_last()), sched.last())
    }
}

pub open spec fn opens_in(sched: Seq<Step>) -> nat
    decreases sched.len(),
{
    if sched.len() == 0 {
        0
    } else {
        opens_in(sched.drop_last()) + if sched.last().op is Open {
            1nat
        } else {
            0nat
        }
    }
}

pub open spec fn edges_in(sched: Seq<Step>) -> Seq<EdgeView>
    decreases sched.len(),
{
    if sched.len() == 0 {
        Seq::empty()
    } else {
        match sched.last().op {
            Op::Edge(e) => edges_in(sched.drop_last()).push(e),
            _ => edges_in(sched.drop_last()),
        }
    }
}

pub open spec fn opens_label(s: Step, l: Seq<char>) -> bool {
    s.op == Op::Open(l)
}

/// No label is opened twice in the run, and none that the registry already carries.
pub open spec fn fresh_labels(v: RegistryView, sched: Seq<Step>) -> bool {
    &&& forall|i: int, j: int|
        0 <= i < j < sched.len() && (#[trigger] sched[i]).op is Open && (#[trigger] sched[j]).op is Open
            ==> sched[i].op->Open_0 != sched[j].op->Open_0
    &&& forall|i: int|
        0 <= i < sched.len() && (#[trigger] sched[i]).op is Open ==> !label_known(v.actions, sched[i].op->Open_0)
}

proof fn lemma_run(v: RegistryView, sched: Seq<Step>)
    requires
        v.wf(),
        fresh_labels(v, sched),
    ensures
        run(v, sched).wf(),
        run(v, sched).instance == v.instance,
        run(v, sched).actions.len() == v.actions.len() + opens_in(sched),
        run(v, sched).edges == v.edges + edges_in(sched),
        forall|a: int|
            0 <= a < run(v, sched).actions.len() ==> label_known(v.actions, #[trigger] run(v, sched).actions[a].label)
                || exists|i: int| 0 <= i < sched.len() && opens_label(#[trigger] sched[i], run(v, sched).actions[a].label),
        forall|i: int|
            0 <= i < sched.len() && (#[trigger] sched[i]).op is Open ==> exists|a: int|
                0 <= a < run(v, sched).actions.len() && (#[trigger] run(v, sched).actions[a]).label
                    == sched[i].op->Open_0 && run(v, sched).actions[a].thread == sched[i].thread,
    decreases sched.len(),
{
    if sched.len() == 0 {
        assert(v.edges + Seq::<EdgeView>::empty() =~= v.edges);
        assert forall|a: int| 0 <= a < v.actions.len() implies label_known(v.actions, #[trigger] v.actions[a].label) by {
        }
    } else {
        let pre = sched.drop_last();
        assert forall|i: int, j: int|
            0 <= i < j < pre.len() && (#[trigger] pre[i]).op is Open && (#[trigger] pre[j]).op is Open implies pre[i].op->Open_0
                != pre[j].op->Open_0 by {
            assert(pre[i] == sched[i] && pre[j] == sched[j]);
        }
        assert forall|i: int|
            0 <= i < pre.len() && (#[trigger] pre[i]).op is Open implies !label_known(v.actions, pre[i].op->Open_0) by {
            assert(pre[i] == sched[i]);
        }
        lemma_run(v, pre);
        let u = run(v, pre);
        let s = sched.last();
        let w = run(v, sched);
        assert(w == step(u, s));
        match s.op {
            Op::Open(l) => {
                lemma_open_index(u.actions, s.thread, l);
                if open_index(u.actions, s.thread, l) >= 0 {
                    let k = open_index(u.actions, s.thread, l);
                    assert(u.actions[k].label == l);
                    if label_known(v.actions, u.actions[k].label) {
                        assert(opens_label(sched[sched.len() - 1], l));
                    } else {
                        let i = choose|i: int| 0 <= i < pre.len() && opens_label(pre[i], u.actions[k].label);
                        assert(opens_label(sched[i], l));
                        assert(opens_label(sched[sched.len() - 1], l));
                    }
                }
                lemma_after_open_wf(u, s.thread, l);
                assert(w.actions.drop_last() == u.actions);
                assert(w.events.drop_last() == u.events);
                assert(edges_in(sched) == edges_in(pre));
                assert forall|a: int| 0 <= a < w.actions.len() implies label_known(v.actions, #[trigger] w.actions[a].label)
                    || exists|i: int| 0 <= i < sched.len() && opens_label(#[trigger] sched[i], w.actions[a].label) by {
                    if a < u.actions.len() {
                        assert(w.actions[a] == u.actions[a]);
                        if !label_known(v.actions, u.actions[a].label) {
                            let i = choose|i: int| 0 <= i < pre.len() && opens_label(#[trigger] pre[i], u.actions[a].label);
                            assert(sched[i] == pre[i]);
                        }
                    } else {
                        assert(opens_label(sched[sched.len() - 1], w.actions[a].label));
                    }
                }
            },
            Op::Close(l) => {
                lemma_open_index(u.actions, s.thread, l);
                assert(edges_in(sched) == edges_in(pre));
                assert forall|a: int| 0 <= a < w.actions.len() implies label_known(v.actions, #[trigger] w.actions[a].label)
                    || exists|i: int| 0 <= i < sched.len() && opens_label(#[trigger] sched[i], w.actions[a].label) by {
                    assert(w.actions[a].label == u.actions[a].label);
                    if !label_known(v.actions, u.actions[a].label) {
                        let i = choose|i: int| 0 <= i < pre.len() && opens_label(#[trigger] pre[i], u.actions[a].label);
                        assert(sched[i] == pre[i]);
                    }
                }
                let k = open_index(u.actions, s.thread, l);
                if k >= 0 {
                    lemma_close_at_wf(u, k);
                }
                assert(w.actions.len() == u.actions.len());
            },
            Op::Edge(e) => {
                assert(w.actions == u.actions);
                assert(edges_in(sched) == edges_in(pre).push(e));
                assert(w.edges =~= v.edges + edges_in(sched));
                assert forall|a: int| 0 <= a < w.actions.len() implies label_known(v.actions, #[trigger] w.actions[a].label)
                    || exists|i: int| 0 <= i < sched.len() && opens_label(#[trigger] sched[i], w.actions[a].label) by {
                    if !label_known(v.actions, u.actions[a].label) {
                        let i = choose|i: int| 0 <= i < pre.len() && opens_label(#[trigger] pre[i], u.actions[a].label);
                        assert(sched[i] == pre[i]);
                    }
                }
            },
        }
        assert forall|i: int| 0 <= i < sched.len() && (#[trigger] sched[i]).op is Open implies exists|a: int|
            0 <= a < w.actions.len() && (#[trigger] w.actions[a]).label == sched[i].op->Open_0 && w.actions[a].thread
                == sched[i].thread by {
            if i < pre.len() {
                assert(pre[i] == sched[i]);
                let a = choose|a: int|
                    0 <= a < u.actions.len() && (#[trigger] u.actions[a]).label == pre[i].op->Open_0
                        && u.actions[a].thread == pre[i].thread;
                assert(w.actions[a].label == u.actions[a].label && w.actions[a].thread == u.actions[a].thread);
            } else {
                assert(w.actions[u.actions.len() as int].label == s.op->Open_0);
            }
        }
    }
}

/// Threads that open disjoint labels lose and duplicate nothing, in whatever
/// order their operations interleave: every open succeeds and adds exactly one
/// action, with its thread and label, and the edges are those held before followed by every declaration
/// of the run, each once, in the order the run made them.
pub proof fn lemma_interleaving(v: RegistryView, sched: Seq<Step>)
    requires
        v.wf(),
        fresh_labels(v, sched),
    ensures
        run(v, sched).wf(),
        run(v, sched).actions.len() == v.actions.len() + opens_in(sched),
        run(v, sched).edges == v.edges + edges_in(sched),
        forall|i: int|
            0 <= i < sched.len() && (#[trigger] sched[i]).op is Open ==> exists|a: int|
                0 <= a < run(v, sched).actions.len() && (#[trigger] run(v, sched).actions[a]).label
                    == sched[i].op->Open_0 && run(v, sched).actions[a].thread == sched[i].thread,
{
    lemma_run(v, sched);
}

} // verus!
