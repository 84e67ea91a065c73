use vstd::prelude::*;
use crate::registry::{Action, ActionView, EdgeDecl, EdgeView, Registry, action_views, edge_views};

verus! {

/// Some action carries this label.
pub open spec fn label_known(acts: Seq<ActionView>, label: Seq<char>) -> bool {
    exists|i: int| 0 <= i < acts.len() && (#[trigger] acts[i]).label == label
}

/// Both endpoints of the edge name actions.
pub open spec fn resolved(acts: Seq<ActionView>, e: EdgeView) -> bool {
    label_known(acts, e.source) && label_known(acts, e.destination)
}

/// The arcs of the graph: each resolved declaration once, in the order of its
/// first declaration.
pub open spec fn arcs_of(acts: Seq<ActionView>, edges: Seq<EdgeView>) -> Seq<EdgeView>
    decreases edges.len(),
{
    if edges.len() == 0 {
        Seq::empty()
    } else {
        let prev = arcs_of(acts, edges.drop_last());
        let e = edges.last();
        if resolved(acts, e) && !prev.contains(e) {
            prev.push(e)
        } else {
            prev
        }
    }
}

/// Action `i` was opened and never closed.
pub open spec fn leaked(acts: Seq<ActionView>, i: int) -> bool {
    0 <= i < acts.len() && acts[i].open
}

/// Declaration `j` names a label that no action carries.
pub open spec fn unresolved(acts: Seq<ActionView>, edges: Seq<EdgeView>, j: int) -> bool {
    0 <= j < edges.len() && !resolved(acts, edges[j])
}

/// Declaration `j` repeats an earlier one exactly.
pub open spec fn duplicate(edges: Seq<EdgeView>, j: int) -> bool {
    0 <= j < edges.len() && exists|i: int| 0 <= i < j && edges[i] == edges[j]
}

pub open spec fn increasing(s: Seq<usize>) -> bool {
    forall|i: int, j: int| 0 <= i < j < s.len() ==> s[i] < s[j]
}

/// `s` lists, in increasing order, exactly the positions below `n` where `p` holds.
pub open spec fn lists_exactly(s: Seq<usize>, n: int, p: spec_fn(int) -> bool) -> bool {
    &&& increasing(s)
    &&& forall|k: int| 0 <= k < s.len() ==> s[k] < n && p(s[k] as int)
    &&& forall|i: int| 0 <= i < n && #[trigger] p(i) ==> s.contains(i as usize)
}

/// The graph handed to the checker: the actions in the order they were opened,
/// and the arcs between their labels.
pub struct Graph {
    pub nodes: Vec<Action>,
    pub arcs: Vec<EdgeDecl>,
}

/// What assembly found wrong, all of it at once: actions never closed, edge
/// declarations that name an unknown label, and declarations that repeat an
/// earlier one. Each list holds positions, in increasing order.
pub struct Report {
    pub leaked: Vec<usize>,
    pub unresolved: Vec<usize>,
    pub duplicates: Vec<usize>,
}

pub struct Assembly {
    pub graph: Graph,
    pub report: Report,
}

impl Report {
    /// Nothing was leaked or left unresolved (repeated declarations are harmless).
    pub fn is_clean(&self) -> (r: bool)
        ensures
            r == (self.leaked@.len() == 0 && self.unresolved@.len() == 0),
    {
        self.leaked.len() == 0 && self.unresolved.len() == 0
    }
}

/// Whether some action of the registry carries `label`.
pub fn has_label(reg: &Registry, label: &String) -> (r: bool)
    ensures
        r == label_known(reg@.actions, label@),
{
    let n = reg.action_count();
    let mut i: usize = 0;
    while i < n
        invariant
            n == reg@.actions.len(),
            i <= n,
            forall|k: int| 0 <= k < i ==> (#[trigger] reg@.actions[k]).label != label@,
        decreases n - i,
    {
        if reg.action(i).label == *label {
            return true;
        }
        i = i + 1;
    }
    false
}

fn contains_edge(v: &Vec<EdgeDecl>, e: &EdgeDecl) -> (r: bool)
    ensures
        r == edge_views(v@).contains(e@),
{
    let mut i: usize = 0;
    while i < v.len()
        invariant
            i <= v.len(),
            forall|k: int| 0 <= k < i ==> v@[k]@ != e@,
        decreases v.len() - i,
    {
        if v[i].same_as(e) {
            assert(edge_views(v@)[i as int] == e@);
            return true;
        }
        i = i + 1;
    }
    assert(!edge_views(v@).contains(e@)) by {
        if edge_views(v@).contains(e@) {
            let k = choose|k: int| 0 <= k < edge_views(v@).len() && edge_views(v@)[k] == e@;
            assert(v@[k]@ == e@);
        }
    }
    false
}

/// Snapshots the registry into a graph and a report.
pub fn assemble(reg: &Registry) -> (r: Assembly)
    ensures
        action_views(r.graph.nodes@) == reg@.actions,
        edge_views(r.graph.arcs@) == arcs_of(reg@.actions, reg@.edges),
        lists_exactly(r.report.leaked@, reg@.actions.len() as int, |i: int| leaked(reg@.actions, i)),
        lists_exactly(
            r.report.unresolved@,
            reg@.edges.len() as int,
            |j: int| unresolved(reg@.actions, reg@.edges, j),
        ),
        lists_exactly(r.report.duplicates@, reg@.edges.len() as int, |j: int| duplicate(reg@.edges, j)),
{
    let ghost acts = reg@.actions;
    let ghost edges = reg@.edges;
    let n = reg.action_count();
    let mut nodes: Vec<Action> = Vec::new();
    let mut leaked_v: Vec<usize> = Vec::new();
    let mut i: usize = 0;
    while i < n
        invariant
            n == acts.len(),
            acts == reg@.actions,
            i <= n,
            nodes@.len() == i,
            forall|k: int| 0 <= k < i ==> (#[trigger] nodes@[k])@ == acts[k],
            increasing(leaked_v@),
            forall|k: int| 0 <= k < leaked_v@.len() ==> leaked_v@[k] < i && leaked(acts, leaked_v@[k] as int),
            forall|k: int| 0 <= k < i && leaked(acts, k) ==> leaked_v@.contains(k as usize),
        decreases n - i,
    {
        let a = reg.action(i);
        let ghost prev = nodes@;
        nodes.push(a.copy());
        if a.open {
            let ghost prevl = leaked_v@;
            leaked_v.push(i);
            assert forall|k: int| 0 <= k < i + 1 && leaked(acts, k) implies leaked_v@.contains(k as usize) by {
                if k < i {
                    let m = choose|m: int| 0 <= m < prevl.len() && prevl[m] == k as usize;
                    assert(leaked_v@[m] == k as usize);
                } else {
                    assert(leaked_v@[prevl.len() as int] == k as usize);
                }
            }
        }
        i = i + 1;
    }
    assert(action_views(nodes@) =~= acts);

    let m = reg.edge_count();
    let mut arcs: Vec<EdgeDecl> = Vec::new();
    let mut unres: Vec<usize> = Vec::new();
    let mut dups: Vec<usize> = Vec::new();
    let mut j: usize = 0;
    while j < m
        invariant
            m == edges.len(),
            edges == reg@.edges,
            acts == reg@.actions,
            j <= m,
            edge_views(arcs@) == arcs_of(acts, edges.take(j as int)),
            increasing(unres@),
            forall|k: int| 0 <= k < unres@.len() ==> unres@[k] < j && unresolved(acts, edges, unres@[k] as int),
            forall|k: int| 0 <= k < j && unresolved(acts, edges, k) ==> unres@.contains(k as usize),
            increasing(dups@),
            forall|k: int| 0 <= k < dups@.len() ==> dups@[k] < j && duplicate(edges, dups@[k] as int),
            forall|k: int| 0 <= k < j && duplicate(edges, k) ==> dups@.contains(k as usize),
        decreases m - j,
    {
        let e = reg.edge(j);
        let ghost pre = edges.take(j as int);
        assert(edges.take(j + 1).drop_last() =~= pre);
        let ok = has_label(reg, &e.source) && has_label(reg, &e.destination);
        if !ok {
            let ghost prevu = unres@;
            unres.push(j);
            assert forall|k: int| 0 <= k < j + 1 && unresolved(acts, edges, k) implies unres@.contains(k as usize) by {
                if k < j {
                    let t = choose|t: int| 0 <= t < prevu.len() && prevu[t] == k as usize;
                    assert(unres@[t] == k as usize);
                } else {
                    assert(unres@[prevu.len() as int] == k as usize);
                }
            }
        }
        let mut seen = false;
        let mut t: usize = 0;
        while t < j
            invariant
                j < m,
                m == edges.len(),
                edges == reg@.edges,
                e@ == edges[j as int],
                t <= j,
                seen == exists|s: int| 0 <= s < t && edges[s] == edges[j as int],
            decreases j - t,
        {
            if reg.edge(t).same_as(e) {
                seen = true;
            }
            t = t + 1;
        }
        if seen {
            let ghost prevd = dups@;
            dups.push(j);
            assert forall|k: int| 0 <= k < j + 1 && duplicate(edges, k) implies dups@.contains(k as usize) by {
                if k < j {
                    let s = choose|s: int| 0 <= s < prevd.len() && prevd[s] == k as usize;
                    assert(dups@[s] == k as usize);
                } else {
                    assert(dups@[prevd.len() as int] == k as usize);
                }
            }
        }
        if ok && !contains_edge(&arcs, e) {
            let ghost preva = arcs@;
            arcs.push(e.copy());
            assert(edge_views(arcs@) =~= edge_views(preva).push(e@));
        }
        j = j + 1;
    }
    assert(edges.take(m as int) =~= edges);
    Assembly {
        graph: Graph { nodes, arcs },
        report: Report { leaked: leaked_v, unresolved: unres, duplicates: dups },
    }
}

} // verus!
