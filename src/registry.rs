use vstd::prelude::*;

verus! {

/// How an edge orders its two actions.
#[derive(Clone, Copy, Debug, PartialEq, Eq, Structural)]
pub enum EdgeKind {
    /// The source's effects must be observable to the destination before it completes.
    Visibility,
    /// The source must execute before the destination begins.
    Execution,
}

/// Whether an event opens or closes an action.
#[derive(Clone, Copy, Debug, PartialEq, Eq, Structural)]
pub enum EventKind {
    Open,
    Close,
}

/// Errors reported at the point of misuse.
#[derive(Clone, Copy, Debug, PartialEq, Eq, Structural)]
pub enum RegError {
    /// The label is already open on the calling thread.
    DuplicateOpen,
    /// The handle does not name an action of this registry that is currently open.
    InvalidHandle,
}

/// The registration handle issued by `open`: the registry it came from and the
/// action's position in that registry's table.
#[derive(Clone, Copy, Debug, PartialEq, Eq, Structural)]
pub struct Handle {
    pub instance: u64,
    pub index: usize,
}

pub struct ActionView {
    pub label: Seq<char>,
    pub thread: u64,
    pub open: bool,
}

pub struct EventView {
    pub label: Seq<char>,
    pub thread: u64,
    pub kind: EventKind,
}

pub struct EdgeView {
    pub kind: EdgeKind,
    pub source: Seq<char>,
    pub destination: Seq<char>,
}

/// One instrumented region: its label, the logical thread that opened it, and
/// whether it is still open.
pub struct Action {
    pub label: String,
    pub thread: u64,
    pub open: bool,
}

/// One open or close, as kept in the registry's log.
pub struct Event {
    pub label: String,
    pub thread: u64,
    pub kind: EventKind,
}

/// A declared ordering constraint between two labels.
pub struct EdgeDecl {
    pub kind: EdgeKind,
    pub source: String,
    pub destination: String,
}

impl View for Action {
    type V = ActionView;

    open spec fn view(&self) -> ActionView {
        ActionView { label: self.label@, thread: self.thread, open: self.open }
    }
}

impl View for Event {
    type V = EventView;

    open spec fn view(&self) -> EventView {
        EventView { label: self.label@, thread: self.thread, kind: self.kind }
    }
}

impl View for EdgeDecl {
    type V = EdgeView;

    open spec fn view(&self) -> EdgeView {
        EdgeView { kind: self.kind, source: self.source@, destination: self.destination@ }
    }
}

impl Action {
    /// A field-by-field copy.
    pub fn copy(&self) -> (r: Action)
        ensures
            r@ == self@,
    {
        Action { label: self.label.clone(), thread: self.thread, open: self.open }
    }
}

impl Event {
    /// A field-by-field copy.
    pub fn copy(&self) -> (r: Event)
        ensures
            r@ == self@,
    {
        Event { label: self.label.clone(), thread: self.thread, kind: self.kind }
    }
}

impl EdgeDecl {
    /// A field-by-field copy.
    pub fn copy(&self) -> (r: EdgeDecl)
        ensures
            r@ == self@,
    {
        EdgeDecl { kind: self.kind, source: self.source.clone(), destination: self.destination.clone() }
    }

    /// Same kind and same two labels.
    pub fn same_as(&self, o: &EdgeDecl) -> (r: bool)
        ensures
            r == (self@ == o@),
    {
        self.kind == o.kind && self.source == o.source && self.destination == o.destination
    }
}

pub open spec fn action_views(v: Seq<Action>) -> Seq<ActionView> {
    v.map_values(|a: Action| a@)
}

pub open spec fn event_views(v: Seq<Event>) -> Seq<EventView> {
    v.map_values(|e: Event| e@)
}

pub open spec fn edge_views(v: Seq<EdgeDecl>) -> Seq<EdgeView> {
    v.map_values(|e: EdgeDecl| e@)
}

pub open spec fn is_open_on(a: ActionView, thread: u64, label: Seq<char>) -> bool {
    a.open && a.thread == thread && a.label == label
}

/// The position of the latest action that is open with this label on this
/// thread, or -1 where there is none.
pub open spec fn open_index(acts: Seq<ActionView>, thread: u64, label: Seq<char>) -> int
    decreases acts.len(),
{
    if acts.len() == 0 {
        -1
    } else if is_open_on(acts.last(), thread, label) {
        acts.len() - 1
    } else {
        open_index(acts.drop_last(), thread, label)
    }
}

/// The action table after one more event, or `None` where the event is not
/// legal there (an open of a label already open on its thread, or a close of
/// one that is not).
pub open spec fn apply_event(acts: Seq<ActionView>, e: EventView) -> Option<Seq<ActionView>> {
    let k = open_index(acts, e.thread, e.label);
    match e.kind {
        EventKind::Open => if k < 0 {
            Some(acts.push(ActionView { label: e.label, thread: e.thread, open: true }))
        } else {
            None
        },
        EventKind::Close => if k >= 0 {
            Some(acts.update(k, ActionView { open: false, ..acts[k] }))
        } else {
            None
        },
    }
}

/// The action table that a log of events builds from an empty registry.
pub open spec fn replay(events: Seq<EventView>) -> Option<Seq<ActionView>>
    decreases events.len(),
{
    if events.len() == 0 {
        Some(Seq::empty())
    } else {
        match replay(events.drop_last()) {
            Some(acts) => apply_event(acts, events.last()),
            None => None,
        }
    }
}

/// No two open actions share a label on one thread.
pub open spec fn unique_open(acts: Seq<ActionView>) -> bool {
    forall|i: int, j: int|
        0 <= i < acts.len() && 0 <= j < acts.len() && acts[i].open && acts[j].open
            && acts[i].thread == acts[j].thread && acts[i].label == acts[j].label ==> i == j
}

pub struct RegistryView {
    pub instance: u64,
    pub actions: Seq<ActionView>,
    pub events: Seq<EventView>,
    pub edges: Seq<EdgeView>,
}

impl RegistryView {
    /// The action table is what the event log builds.
    pub open spec fn wf(self) -> bool {
        &&& replay(self.events) == Some(self.actions)
        &&& unique_open(self.actions)
    }

    pub open spec fn open_result(self, thread: u64, label: Seq<char>) -> Result<Handle, RegError> {
        if open_index(self.actions, thread, label) >= 0 {
            Err(RegError::DuplicateOpen)
        } else {
            Ok(Handle { instance: self.instance, index: self.actions.len() as usize })
        }
    }

    pub open spec fn after_open(self, thread: u64, label: Seq<char>) -> RegistryView {
        if open_index(self.actions, thread, label) >= 0 {
            self
        } else {
            RegistryView {
                actions: self.actions.push(ActionView { label, thread, open: true }),
                events: self.events.push(EventView { label, thread, kind: EventKind::Open }),
                ..self
            }
        }
    }

    pub open spec fn is_live(self, h: Handle) -> bool {
        &&& h.instance == self.instance
        &&& h.index < self.actions.len()
        &&& self.actions[h.index as int].open
    }

    pub open spec fn close_result(self, h: Handle) -> Result<(), RegError> {
        if self.is_live(h) {
            Ok(())
        } else {
            Err(RegError::InvalidHandle)
        }
    }

    /// Action `k` closed, with its close event logged.
    pub open spec fn close_at(self, k: int) -> RegistryView {
        let a = self.actions[k];
        RegistryView {
            actions: self.actions.update(k, ActionView { open: false, ..a }),
            events: self.events.push(EventView { label: a.label, thread: a.thread, kind: EventKind::Close }),
            ..self
        }
    }

    pub open spec fn after_close(self, h: Handle) -> RegistryView {
        if self.is_live(h) {
            self.close_at(h.index as int)
        } else {
            self
        }
    }

    pub open spec fn after_edge(self, e: EdgeView) -> RegistryView {
        RegistryView { edges: self.edges.push(e), ..self }
    }
}

pub proof fn lemma_open_index(acts: Seq<ActionView>, thread: u64, label: Seq<char>)
    ensures
        -1 <= open_index(acts, thread, label) < acts.len(),
        open_index(acts, thread, label) >= 0 ==> is_open_on(
            acts[open_index(acts, thread, label)],
            thread,
            label,
        ),
        open_index(acts, thread, label) < 0 ==> forall|i: int|
            0 <= i < acts.len() ==> !is_open_on(#[trigger] acts[i], thread, label),
    decreases acts.len(),
{
    if acts.len() > 0 {
        lemma_open_index(acts.drop_last(), thread, label);
        if !is_open_on(acts.last(), thread, label) && open_index(acts, thread, label) < 0 {
            assert forall|i: int| 0 <= i < acts.len() implies !is_open_on(
                #[trigger] acts[i],
                thread,
                label,
            ) by {
                if i < acts.len() - 1 {
                    assert(acts[i] == acts.drop_last()[i]);
                }
            }
        }
    }
}

/// With open actions unique, the open action of a label on a thread is the one
/// that `open_index` finds.
pub proof fn lemma_open_index_unique(acts: Seq<ActionView>, k: int)
    requires
        unique_open(acts),
        0 <= k < acts.len(),
        acts[k].open,
    ensures
        open_index(acts, acts[k].thread, acts[k].label) == k,
{
    lemma_open_index(acts, acts[k].thread, acts[k].label);
}

pub proof fn lemma_after_open_wf(v: RegistryView, thread: u64, label: Seq<char>)
    requires
        v.wf(),
    ensures
        v.after_open(thread, label).wf(),
{
    lemma_open_index(v.actions, thread, label);
    if open_index(v.actions, thread, label) < 0 {
        assert(v.after_open(thread, label).events.drop_last() =~= v.events);
    }
}

pub proof fn lemma_close_at_wf(v: RegistryView, k: int)
    requires
        v.wf(),
        0 <= k < v.actions.len(),
        v.actions[k].open,
    ensures
        v.close_at(k).wf(),
{
    lemma_open_index_unique(v.actions, k);
    assert(v.close_at(k).events.drop_last() =~= v.events);
}

/// The registry of actions and edges for one checking run.
pub struct Registry {
    instance: u64,
    actions: Vec<Action>,
    events: Vec<Event>,
    edges: Vec<EdgeDecl>,
}

impl View for Registry {
    type V = RegistryView;

    closed spec fn view(&self) -> RegistryView {
        RegistryView {
            instance: self.instance,
            actions: action_views(self.actions@),
            events: event_views(self.events@),
            edges: edge_views(self.edges@),
        }
    }
}

impl Registry {
    /// An empty registry; `instance` tells its handles from those of other registries.
    pub fn new(instance: u64) -> (r: Registry)
        ensures
            r@ == (RegistryView {
                instance,
                actions: Seq::empty(),
                events: Seq::empty(),
                edges: Seq::empty(),
            }),
            r@.wf(),
    {
        let r = Registry { instance, actions: Vec::new(), events: Vec::new(), edges: Vec::new() };
        assert(r@.actions =~= Seq::<ActionView>::empty());
        assert(r@.events =~= Seq::<EventView>::empty());
        assert(r@.edges =~= Seq::<EdgeView>::empty());
        r
    }

    pub fn instance(&self) -> (r: u64)
        ensures
            r == self@.instance,
    {
        self.instance
    }

    pub fn action_count(&self) -> (r: usize)
        ensures
            r == self@.actions.len(),
    {
        self.actions.len()
    }

    pub fn event_count(&self) -> (r: usize)
        ensures
            r == self@.events.len(),
    {
        self.events.len()
    }

    pub fn edge_count(&self) -> (r: usize)
        ensures
            r == self@.edges.len(),
    {
        self.edges.len()
    }

    pub fn action(&self, i: usize) -> (r: &Action)
        requires
            i < self@.actions.len(),
        ensures
            r@ == self@.actions[i as int],
    {
        &self.actions[i]
    }

    pub fn event(&self, i: usize) -> (r: &Event)
        requires
            i < self@.events.len(),
        ensures
            r@ == self@.events[i as int],
    {
        &self.events[i]
    }

    pub fn edge(&self, i: usize) -> (r: &EdgeDecl)
        requires
            i < self@.edges.len(),
        ensures
            r@ == self@.edges[i as int],
    {
        &self.edges[i]
    }

    /// The position of the action open with `label` on `thread`, if any.
    pub fn find_open(&self, thread: u64, label: &String) -> (r: Option<usize>)
        ensures
            match r {
                Some(k) => k == open_index(self@.actions, thread, label@),
                None => open_index(self@.actions, thread, label@) < 0,
            },
    {
        let ghost acts = self@.actions;
        let mut i: usize = self.actions.len();
        assert(acts.take(i as int) =~= acts);
        while i > 0
            invariant
                i <= self.actions.len(),
                acts == self@.actions,
                open_index(acts.take(i as int), thread, label@) == open_index(acts, thread, label@),
            decreases i,
        {
            let a = &self.actions[i - 1];
            assert(a@ == acts[i - 1]);
            if a.open && a.thread == thread && a.label == *label {
                return Some(i - 1);
            }
            assert(acts.take(i as int).drop_last() =~= acts.take(i - 1));
            i = i - 1;
        }
        None
    }

    /// Opens an action with `label` on `thread` and returns its handle; fails,
    /// changing nothing, where that label is already open on that thread.
    pub fn open(&mut self, thread: u64, label: String) -> (r: Result<Handle, RegError>)
        requires
            old(self)@.wf(),
        ensures
            r == old(self)@.open_result(thread, label@),
            final(self)@ == old(self)@.after_open(thread, label@),
            final(self)@.wf(),
    {
        match self.find_open(thread, &label) {
            Some(_) => Err(RegError::DuplicateOpen),
            None => {
                let ghost v = self@;
                let index = self.actions.len();
                proof {
                    lemma_open_index(v.actions, thread, label@);
                }
                self.events.push(Event { label: label.clone(), thread, kind: EventKind::Open });
                self.actions.push(Action { label, thread, open: true });
                assert(self@.actions =~= v.actions.push(ActionView { label: label@, thread, open: true }));
                assert(self@.events =~= v.events.push(EventView { label: label@, thread, kind: EventKind::Open }));
                assert(self@.events.drop_last() =~= v.events);
                Ok(Handle { instance: self.instance, index })
            },
        }
    }

    /// Closes the action of a live handle; fails with `InvalidHandle`, changing
    /// nothing, for any other handle.
    pub fn close(&mut self, h: Handle) -> (r: Result<(), RegError>)
        requires
            old(self)@.wf(),
        ensures
            r == old(self)@.close_result(h),
            final(self)@ == old(self)@.after_close(h),
            final(self)@.wf(),
    {
        if h.instance != self.instance || h.index >= self.actions.len() || !self.actions[h.index].open {
            return Err(RegError::InvalidHandle);
        }
        let ghost v = self@;
        let i = h.index;
        let label = self.actions[i].label.clone();
        let thread = self.actions[i].thread;
        proof {
            lemma_open_index_unique(v.actions, i as int);
        }
        self.events.push(Event { label: label.clone(), thread, kind: EventKind::Close });
        self.actions.set(i, Action { label, thread, open: false });
        let ghost a = v.actions[i as int];
        assert(self@.actions =~= v.actions.update(i as int, ActionView { open: false, ..a }));
        assert(self@.events =~= v.events.push(EventView { label: a.label, thread: a.thread, kind: EventKind::Close }));
        assert(self@.events.drop_last() =~= v.events);
        Ok(())
    }

    /// Records an edge of `kind` from `source` to `destination` and returns its
    /// position among the declarations. The labels need not exist yet.
    pub fn register_edge(&mut self, kind: EdgeKind, source: String, destination: String) -> (id: usize)
        requires
            old(self)@.wf(),
        ensures
            id == old(self)@.edges.len(),
            final(self)@ == old(self)@.after_edge(EdgeView { kind, source: source@, destination: destination@ }),
            final(self)@.wf(),
    {
        let id = self.edges.len();
        let ghost v = self@;
        self.edges.push(EdgeDecl { kind, source, destination });
        assert(self@.edges =~= v.edges.push(EdgeView { kind, source: source@, destination: destination@ }));
        id
    }

    /// `register_edge` with `EdgeKind::Visibility`.
    pub fn visibility_edge(&mut self, source: String, destination: String) -> (id: usize)
        requires
            old(self)@.wf(),
        ensures
            id == old(self)@.edges.len(),
            final(self)@ == old(self)@.after_edge(
                EdgeView { kind: EdgeKind::Visibility, source: source@, destination: destination@ },
            ),
            final(self)@.wf(),
    {
        self.register_edge(EdgeKind::Visibility, source, destination)
    }

    /// `register_edge` with `EdgeKind::Execution`.
    pub fn execution_edge(&mut self, source: String, destination: String) -> (id: usize)
        requires
            old(self)@.wf(),
        ensures
            id == old(self)@.edges.len(),
            final(self)@ == old(self)@.after_edge(
                EdgeView { kind: EdgeKind::Execution, source: source@, destination: destination@ },
            ),
            final(self)@.wf(),
    {
        self.register_edge(EdgeKind::Execution, source, destination)
    }
}

} // verus!
