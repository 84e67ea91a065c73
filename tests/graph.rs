use rmc::durable::Durable;
use rmc::graph::assemble;
use rmc::registry::{EdgeDecl, EdgeKind, Event, EventKind, RegError, Registry};

fn s(x: &str) -> String {
    String::from(x)
}

#[test]
fn producer_consumer_scenario() {
    let mut r = Registry::new(1);
    let p = r.open(1, s("producer")).unwrap();
    r.visibility_edge(s("producer"), s("consumer"));
    r.close(p).unwrap();
    let c = r.open(2, s("consumer")).unwrap();
    r.close(c).unwrap();
    let a = assemble(&r);
    assert_eq!(a.graph.nodes.len(), 2);
    assert_eq!(a.graph.nodes[0].label, s("producer"));
    assert_eq!(a.graph.nodes[0].thread, 1);
    assert_eq!(a.graph.nodes[1].label, s("consumer"));
    assert_eq!(a.graph.nodes[1].thread, 2);
    assert_eq!(a.graph.arcs.len(), 1);
    assert_eq!(a.graph.arcs[0].kind, EdgeKind::Visibility);
    assert_eq!(a.graph.arcs[0].source, s("producer"));
    assert_eq!(a.graph.arcs[0].destination, s("consumer"));
    assert!(a.report.leaked.is_empty());
    assert!(a.report.unresolved.is_empty());
    assert!(a.report.duplicates.is_empty());
    assert!(a.report.is_clean());
}

#[test]
fn open_then_close_leaves_nothing_leaked() {
    let mut r = Registry::new(1);
    let h = r.open(4, s("L")).unwrap();
    r.close(h).unwrap();
    let a = assemble(&r);
    assert!(a.report.leaked.is_empty());
    assert!(!a.graph.nodes[0].open);
}

#[test]
fn unclosed_actions_are_reported_leaked() {
    let mut r = Registry::new(1);
    r.open(1, s("a")).unwrap();
    let h = r.open(1, s("b")).unwrap();
    r.open(2, s("c")).unwrap();
    r.close(h).unwrap();
    let a = assemble(&r);
    assert_eq!(a.report.leaked, vec![0, 2]);
    assert!(!a.report.is_clean());
}

#[test]
fn repeated_edge_gives_one_arc_and_a_warning() {
    let mut r = Registry::new(1);
    let a = r.open(1, s("a")).unwrap();
    r.close(a).unwrap();
    let b = r.open(1, s("b")).unwrap();
    r.close(b).unwrap();
    r.execution_edge(s("a"), s("b"));
    r.visibility_edge(s("a"), s("b"));
    r.execution_edge(s("a"), s("b"));
    r.execution_edge(s("a"), s("b"));
    let g = assemble(&r);
    assert_eq!(g.graph.arcs.len(), 2);
    assert_eq!(g.graph.arcs[0].kind, EdgeKind::Execution);
    assert_eq!(g.graph.arcs[1].kind, EdgeKind::Visibility);
    assert_eq!(g.report.duplicates, vec![2, 3]);
    assert!(g.report.unresolved.is_empty());
    assert!(g.report.is_clean());
}

#[test]
fn edge_to_unknown_label_is_unresolved() {
    let mut r = Registry::new(1);
    let a = r.open(1, s("a")).unwrap();
    r.close(a).unwrap();
    r.visibility_edge(s("a"), s("ghost"));
    r.execution_edge(s("nobody"), s("a"));
    r.execution_edge(s("a"), s("a"));
    let g = assemble(&r);
    assert_eq!(g.report.unresolved, vec![0, 1]);
    assert_eq!(g.graph.arcs.len(), 1);
    assert_eq!(g.graph.arcs[0].kind, EdgeKind::Execution);
    assert!(!g.report.is_clean());
}

#[test]
fn edge_declared_before_its_actions_resolves() {
    let mut r = Registry::new(1);
    r.visibility_edge(s("x"), s("y"));
    let g = assemble(&r);
    assert_eq!(g.report.unresolved, vec![0]);
    let x = r.open(1, s("x")).unwrap();
    r.close(x).unwrap();
    let y = r.open(2, s("y")).unwrap();
    r.close(y).unwrap();
    let g = assemble(&r);
    assert!(g.report.unresolved.is_empty());
    assert_eq!(g.graph.arcs.len(), 1);
}

#[test]
fn empty_registry_assembles_empty_graph() {
    let r = Registry::new(1);
    let g = assemble(&r);
    assert!(g.graph.nodes.is_empty());
    assert!(g.graph.arcs.is_empty());
    assert!(g.report.is_clean());
}

#[test]
fn interleaved_threads_lose_nothing() {
    let n: u64 = 3;
    let m: u64 = 4;
    let mut r = Registry::new(1);
    let mut handles = Vec::new();
    for k in 0..m {
        for t in 0..n {
            handles.push(r.open(t, format!("t{}_{}", t, k)).unwrap());
        }
        for t in 0..n {
            r.execution_edge(format!("t{}_{}", t, k), format!("t{}_{}", (t + 1) % n, k));
        }
        for h in handles.drain(..).rev() {
            r.close(h).unwrap();
        }
    }
    let g = assemble(&r);
    assert_eq!(g.graph.nodes.len(), 12);
    assert_eq!(g.graph.arcs.len(), 12);
    assert!(g.report.is_clean());
    assert!(g.report.duplicates.is_empty());
    for t in 0..n {
        for k in 0..m {
            let label = format!("t{}_{}", t, k);
            assert_eq!(g.graph.nodes.iter().filter(|a| a.label == label && a.thread == t).count(), 1);
        }
    }
}

#[test]
fn round_trip_rebuilds_same_graph() {
    let mut r = Registry::new(5);
    let a = r.open(1, s("a")).unwrap();
    let b = r.open(2, s("b")).unwrap();
    r.visibility_edge(s("a"), s("b"));
    r.close(a).unwrap();
    r.open(1, s("c")).unwrap();
    r.close(b).unwrap();
    r.execution_edge(s("b"), s("c"));
    r.execution_edge(s("b"), s("zz"));
    let d = Durable::capture(&r);
    assert_eq!(d.events.len(), 5);
    assert_eq!(d.edges.len(), 3);
    let r2 = d.rebuild(5).unwrap();
    let g1 = assemble(&r);
    let g2 = assemble(&r2);
    assert_eq!(g1.graph.nodes.len(), g2.graph.nodes.len());
    for i in 0..g1.graph.nodes.len() {
        assert_eq!(g1.graph.nodes[i].label, g2.graph.nodes[i].label);
        assert_eq!(g1.graph.nodes[i].thread, g2.graph.nodes[i].thread);
        assert_eq!(g1.graph.nodes[i].open, g2.graph.nodes[i].open);
    }
    assert_eq!(g1.graph.arcs.len(), g2.graph.arcs.len());
    for i in 0..g1.graph.arcs.len() {
        assert_eq!(g1.graph.arcs[i].kind, g2.graph.arcs[i].kind);
        assert_eq!(g1.graph.arcs[i].source, g2.graph.arcs[i].source);
        assert_eq!(g1.graph.arcs[i].destination, g2.graph.arcs[i].destination);
    }
    assert_eq!(g1.report.leaked, g2.report.leaked);
    assert_eq!(g1.report.unresolved, g2.report.unresolved);
    for i in 0..r.event_count() {
        assert_eq!(r.event(i).label, r2.event(i).label);
        assert_eq!(r.event(i).kind, r2.event(i).kind);
        assert_eq!(r.event(i).thread, r2.event(i).thread);
    }
}

fn ev(label: &str, thread: u64, kind: EventKind) -> Event {
    Event { label: s(label), thread, kind }
}

#[test]
fn rebuild_rejects_duplicate_open() {
    let d = Durable {
        events: vec![ev("a", 1, EventKind::Open), ev("a", 1, EventKind::Open)],
        edges: vec![],
    };
    assert_eq!(d.rebuild(1).err(), Some(RegError::DuplicateOpen));
}

#[test]
fn rebuild_rejects_close_without_open() {
    let d = Durable {
        events: vec![ev("a", 1, EventKind::Open), ev("a", 2, EventKind::Close)],
        edges: vec![],
    };
    assert_eq!(d.rebuild(1).err(), Some(RegError::InvalidHandle));
}

#[test]
fn rebuild_keeps_edges_in_order() {
    let d = Durable {
        events: vec![ev("a", 1, EventKind::Open), ev("a", 1, EventKind::Close)],
        edges: vec![
            EdgeDecl { kind: EdgeKind::Execution, source: s("a"), destination: s("b") },
            EdgeDecl { kind: EdgeKind::Visibility, source: s("b"), destination: s("a") },
        ],
    };
    let r = d.rebuild(9).unwrap();
    assert_eq!(r.instance(), 9);
    assert_eq!(r.action_count(), 1);
    assert!(!r.action(0).open);
    assert_eq!(r.edge_count(), 2);
    assert_eq!(r.edge(1).kind, EdgeKind::Visibility);
}
