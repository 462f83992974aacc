//! The span tree and its message-ingestion state machine.
use vstd::prelude::*;
use std::collections::HashMap;
use crate::laws::{lemma_empty_well_formed, lemma_step_well_formed, well_formed};
use crate::text::{decimal, decimal_string, join_names, joined, texts};
use crate::model::{Callsite, CallsiteId, DataEvent, DataEventView, Message, MessageEnum, Span, SpanId, Time, TimeInterval};

verus! {

broadcast use vstd::std_specs::hash::group_hash_axioms;

/// A non-fatal inconsistency found in the message stream.
#[derive(Clone, Copy, Debug, PartialEq, Eq, Structural)]
pub enum Anomaly {
    /// A span was created under an id that was already in use; the earlier
    /// state for that id is discarded.
    ReusedIdentifier,
    /// A message referred to a span that is not known.
    UnknownReference,
    /// An exit without an open interval, a second destroy, or a second
    /// follows-from link.
    InconsistentInterval,
}

/// The runtime record of one span.
#[derive(Debug)]
pub struct SpanNode {
    pub span: Span,
    pub follows: Option<SpanId>,
    pub lifetime: TimeInterval,
    pub intervals: Vec<TimeInterval>,
    pub children: Vec<SpanId>,
    pub events: Vec<(Time, DataEvent)>,
}

/// What a span node holds, as mathematical values.
pub struct SpanNodeView {
    pub span: Span,
    pub follows: Option<SpanId>,
    pub lifetime: TimeInterval,
    pub intervals: Seq<TimeInterval>,
    pub children: Seq<SpanId>,
    pub events: Seq<(Time, DataEventView)>,
}

pub open spec fn timed_view(e: (Time, DataEvent)) -> (Time, DataEventView) {
    (e.0, e.1@)
}

pub open spec fn timed_views(s: Seq<(Time, DataEvent)>) -> Seq<(Time, DataEventView)> {
    s.map_values(|e: (Time, DataEvent)| timed_view(e))
}

impl View for SpanNode {
    type V = SpanNodeView;

    open spec fn view(&self) -> SpanNodeView {
        SpanNodeView {
            span: self.span,
            follows: self.follows,
            lifetime: self.lifetime,
            intervals: self.intervals@,
            children: self.children@,
            events: timed_views(self.events@),
        }
    }
}

/// Everything the span tree knows, as mathematical values.
pub struct SpanTreeView {
    pub callsites: Map<CallsiteId, Callsite>,
    pub nodes: Map<SpanId, SpanNodeView>,
    pub roots: Seq<SpanId>,
    pub orphan_events: Seq<(Time, DataEventView)>,
}

/// Running index of callsites, spans and events, and of their structure.
pub struct SpanTree {
    callsites: HashMap<CallsiteId, Callsite>,
    nodes: HashMap<SpanId, SpanNode>,
    roots: Vec<SpanId>,
    orphan_events: Vec<(Time, DataEvent)>,
}

impl View for SpanTree {
    type V = SpanTreeView;

    closed spec fn view(&self) -> SpanTreeView {
        SpanTreeView {
            callsites: self.callsites@,
            nodes: self.nodes@.map_values(|n: SpanNode| n@),
            roots: self.roots@,
            orphan_events: timed_views(self.orphan_events@),
        }
    }
}

/// The tree before any message.
pub open spec fn empty_tree() -> SpanTreeView {
    SpanTreeView {
        callsites: Map::empty(),
        nodes: Map::empty(),
        roots: Seq::empty(),
        orphan_events: Seq::empty(),
    }
}

/// `s` with `id` added unless it is already there.
pub open spec fn with_id(s: Seq<SpanId>, id: SpanId) -> Seq<SpanId> {
    if s.contains(id) {
        s
    } else {
        s.push(id)
    }
}

/// The record of a span just created at `time`.
pub open spec fn fresh_node(span: Span, time: Time) -> SpanNodeView {
    SpanNodeView {
        span,
        follows: None,
        lifetime: TimeInterval { entered: Some(time), exited: None },
        intervals: Seq::empty(),
        children: Seq::empty(),
        events: Seq::empty(),
    }
}

/// The interval entered at `time` and not yet exited.
pub open spec fn opened_at(time: Time) -> TimeInterval {
    TimeInterval { entered: Some(time), exited: None }
}

/// An exit at `time` closes the last interval if it is open, and otherwise
/// records an interval that was never seen to open.
pub open spec fn closed_at(iv: Seq<TimeInterval>, time: Time) -> Seq<TimeInterval> {
    if iv.len() > 0 && iv.last().exited is None {
        iv.update(iv.len() - 1, TimeInterval { entered: iv.last().entered, exited: Some(time) })
    } else {
        iv.push(TimeInterval { entered: None, exited: Some(time) })
    }
}

/// The node map once `span` is created at `time`, before it is linked to a parent.
pub open spec fn nodes_with_fresh(t: SpanTreeView, span: Span, time: Time) -> Map<SpanId, SpanNodeView> {
    t.nodes.insert(span.id, fresh_node(span, time))
}

/// The state after ingesting message `m` in state `t`.
pub open spec fn step(t: SpanTreeView, m: Message) -> SpanTreeView {
    let time = m.log_time;
    match m.msg_enum {
        MessageEnum::NewCallsite(c) => SpanTreeView { callsites: t.callsites.insert(c.id, c), ..t },
        MessageEnum::NewSpan(span) => {
            let nodes = nodes_with_fresh(t, span, time);
            match span.parent_span_id {
                Some(p) => if nodes.contains_key(p) {
                    let parent = nodes[p];
                    SpanTreeView {
                        nodes: nodes.insert(
                            p,
                            SpanNodeView { children: with_id(parent.children, span.id), ..parent },
                        ),
                        ..t
                    }
                } else {
                    SpanTreeView { nodes, ..t }
                },
                None => SpanTreeView { nodes, roots: with_id(t.roots, span.id), ..t },
            }
        },
        MessageEnum::EnterSpan(id) => if t.nodes.contains_key(id) {
            let n = t.nodes[id];
            SpanTreeView {
                nodes: t.nodes.insert(id, SpanNodeView { intervals: n.intervals.push(opened_at(time)), ..n }),
                ..t
            }
        } else {
            t
        },
        MessageEnum::ExitSpan(id) => if t.nodes.contains_key(id) {
            let n = t.nodes[id];
            SpanTreeView {
                nodes: t.nodes.insert(id, SpanNodeView { intervals: closed_at(n.intervals, time), ..n }),
                ..t
            }
        } else {
            t
        },
        MessageEnum::DestroySpan(id) => if t.nodes.contains_key(id) {
            let n = t.nodes[id];
            SpanTreeView {
                nodes: t.nodes.insert(
                    id,
                    SpanNodeView { lifetime: TimeInterval { exited: Some(time), ..n.lifetime }, ..n },
                ),
                ..t
            }
        } else {
            t
        },
        MessageEnum::SpanFollowsFrom { span, follows } => if t.nodes.contains_key(span) {
            let n = t.nodes[span];
            SpanTreeView {
                nodes: t.nodes.insert(span, SpanNodeView { follows: Some(follows), ..n }),
                ..t
            }
        } else {
            t
        },
        MessageEnum::DataEvent(ev) => match ev.parent_span_id {
            Some(p) => if t.nodes.contains_key(p) {
                let n = t.nodes[p];
                SpanTreeView {
                    nodes: t.nodes.insert(p, SpanNodeView { events: n.events.push((time, ev@)), ..n }),
                    ..t
                }
            } else {
                t
            },
            None => SpanTreeView { orphan_events: t.orphan_events.push((time, ev@)), ..t },
        },
    }
}

/// The anomalies that ingesting `m` in state `t` reports, in order.
pub open spec fn anomalies_of(t: SpanTreeView, m: Message) -> Seq<Anomaly> {
    match m.msg_enum {
        MessageEnum::NewCallsite(_) => Seq::empty(),
        MessageEnum::NewSpan(span) => {
            let reused = if t.nodes.contains_key(span.id) {
                seq![Anomaly::ReusedIdentifier]
            } else {
                Seq::empty()
            };
            let orphaned = match span.parent_span_id {
                Some(p) => if nodes_with_fresh(t, span, m.log_time).contains_key(p) {
                    Seq::empty()
                } else {
                    seq![Anomaly::UnknownReference]
                },
                None => Seq::empty(),
            };
            reused + orphaned
        },
        MessageEnum::EnterSpan(id) => if t.nodes.contains_key(id) {
            Seq::empty()
        } else {
            seq![Anomaly::UnknownReference]
        },
        MessageEnum::ExitSpan(id) => if !t.nodes.contains_key(id) {
            seq![Anomaly::UnknownReference]
        } else if t.nodes[id].intervals.len() > 0 && t.nodes[id].intervals.last().exited is None {
            Seq::empty()
        } else {
            seq![Anomaly::InconsistentInterval]
        },
        MessageEnum::DestroySpan(id) => if !t.nodes.contains_key(id) {
            seq![Anomaly::UnknownReference]
        } else if t.nodes[id].lifetime.exited is Some {
            seq![Anomaly::InconsistentInterval]
        } else {
            Seq::empty()
        },
        MessageEnum::SpanFollowsFrom { span, follows: _ } => if !t.nodes.contains_key(span) {
            seq![Anomaly::UnknownReference]
        } else if t.nodes[span].follows is Some {
            seq![Anomaly::InconsistentInterval]
        } else {
            Seq::empty()
        },
        MessageEnum::DataEvent(ev) => match ev.parent_span_id {
            Some(p) => if t.nodes.contains_key(p) {
                Seq::empty()
            } else {
                seq![Anomaly::UnknownReference]
            },
            None => Seq::empty(),
        },
    }
}

/// Whether `v` holds `id`.
fn contains_id(v: &Vec<SpanId>, id: SpanId) -> (r: bool)
    ensures
        r == v@.contains(id),
{
    let mut i: usize = 0;
    while i < v.len()
        invariant
            i <= v@.len(),
            forall|j: int| 0 <= j < i ==> v@[j] != id,
        decreases v@.len() - i,
    {
        if v[i] == id {
            assert(v@[i as int] == id);
            return true;
        }
        i = i + 1;
    }
    false
}

/// Adds `id` to `v` unless it is already there.
fn add_id(v: &mut Vec<SpanId>, id: SpanId)
    ensures
        final(v)@ == with_id(old(v)@, id),
{
    if !contains_id(v, id) {
        v.push(id);
    }
}

/// Appends a timed copy of `ev` to `events`.
fn push_event(events: &mut Vec<(Time, DataEvent)>, time: Time, ev: &DataEvent)
    ensures
        timed_views(final(events)@) == timed_views(old(events)@).push((time, ev@)),
{
    events.push((time, ev.copy()));
    assert(timed_views(events@) =~= timed_views(old(events)@).push((time, ev@)));
}

impl SpanNode {
    /// The record of `span`, created at `time`.
    pub fn new(span: Span, time: Time) -> (r: SpanNode)
        ensures
            r@ == fresh_node(span, time),
    {
        let r = SpanNode {
            span,
            follows: None,
            lifetime: TimeInterval { entered: Some(time), exited: None },
            intervals: Vec::new(),
            children: Vec::new(),
            events: Vec::new(),
        };
        assert(r@.events =~= Seq::<(Time, DataEventView)>::empty());
        r
    }
}

impl SpanTree {
    /// A tree that has seen no message.
    pub fn new() -> (r: SpanTree)
        ensures
            r@ == empty_tree(),
            well_formed(r@),
    {
        proof {
            lemma_empty_well_formed();
        }
        let r = SpanTree {
            callsites: HashMap::new(),
            nodes: HashMap::new(),
            roots: Vec::new(),
            orphan_events: Vec::new(),
        };
        assert(r@.nodes =~= Map::<SpanId, SpanNodeView>::empty());
        assert(r@.orphan_events =~= Seq::<(Time, DataEventView)>::empty());
        r
    }

    proof fn lemma_view_finite(&self)
        ensures
            self@.nodes.dom().finite(),
            self@.callsites.dom().finite(),
    {
        assert(self@.nodes.dom() =~= self.nodes@.dom());
    }

    /// Takes the node of `id` out of the tree.
    fn take_node(&mut self, id: SpanId) -> (r: Option<SpanNode>)
        ensures
            final(self)@.callsites == old(self)@.callsites,
            final(self)@.roots == old(self)@.roots,
            final(self)@.orphan_events == old(self)@.orphan_events,
            final(self)@.nodes == old(self)@.nodes.remove(id),
            match r {
                Some(n) => old(self)@.nodes.contains_key(id) && n@ == old(self)@.nodes[id],
                None => !old(self)@.nodes.contains_key(id),
            },
    {
        let r = self.nodes.remove(&id);
        assert(self@.nodes =~= old(self)@.nodes.remove(id));
        r
    }

    /// Puts `node` into the tree under `id`.
    fn put_node(&mut self, id: SpanId, node: SpanNode)
        ensures
            final(self)@ == (SpanTreeView { nodes: old(self)@.nodes.insert(id, node@), ..old(self)@ }),
    {
        self.nodes.insert(id, node);
        assert(self@.nodes =~= old(self)@.nodes.insert(id, node@));
    }

    /// The anomalies that ingesting `message` would report, in order.
    pub fn anomalies(&self, message: &Message) -> (r: Vec<Anomaly>)
        ensures
            r@ == anomalies_of(self@, *message),
    {
        let mut r: Vec<Anomaly> = Vec::new();
        match &message.msg_enum {
            MessageEnum::NewCallsite(_) => {},
            MessageEnum::NewSpan(span) => {
                if self.nodes.contains_key(&span.id) {
                    r.push(Anomaly::ReusedIdentifier);
                }
                if let Some(p) = span.parent_span_id {
                    if p != span.id && !self.nodes.contains_key(&p) {
                        r.push(Anomaly::UnknownReference);
                    }
                }
            },
            MessageEnum::EnterSpan(id) => {
                if !self.nodes.contains_key(id) {
                    r.push(Anomaly::UnknownReference);
                }
            },
            MessageEnum::ExitSpan(id) => {
                match self.nodes.get(id) {
                    None => r.push(Anomaly::UnknownReference),
                    Some(node) => {
                        let n = node.intervals.len();
                        if n == 0 || node.intervals[n - 1].exited.is_some() {
                            r.push(Anomaly::InconsistentInterval);
                        }
                    },
                }
            },
            MessageEnum::DestroySpan(id) => {
                match self.nodes.get(id) {
                    None => r.push(Anomaly::UnknownReference),
                    Some(node) => {
                        if node.lifetime.exited.is_some() {
                            r.push(Anomaly::InconsistentInterval);
                        }
                    },
                }
            },
            MessageEnum::SpanFollowsFrom { span, follows: _ } => {
                match self.nodes.get(span) {
                    None => r.push(Anomaly::UnknownReference),
                    Some(node) => {
                        if node.follows.is_some() {
                            r.push(Anomaly::InconsistentInterval);
                        }
                    },
                }
            },
            MessageEnum::DataEvent(ev) => {
                if let Some(p) = ev.parent_span_id {
                    if !self.nodes.contains_key(&p) {
                        r.push(Anomaly::UnknownReference);
                    }
                }
            },
        }
        assert(r@ =~= anomalies_of(self@, *message));
        r
    }

    /// Ingests one message, and returns the anomalies it showed.
    pub fn on_mesage(&mut self, message: &Message) -> (r: Vec<Anomaly>)
        ensures
            final(self)@ == step(old(self)@, *message),
            r@ == anomalies_of(old(self)@, *message),
            well_formed(old(self)@) ==> well_formed(final(self)@),
    {
        proof {
            if well_formed(self@) {
                lemma_step_well_formed(self@, *message);
            }
        }
        let r = self.anomalies(message);
        let time = message.log_time;
        match &message.msg_enum {
            MessageEnum::NewCallsite(callsite) => {
                self.callsites.insert(callsite.id, callsite.copy());
            },
            MessageEnum::NewSpan(span) => {
                self.put_node(span.id, SpanNode::new(*span, time));
                if let Some(p) = span.parent_span_id {
                    if let Some(mut parent) = self.take_node(p) {
                        add_id(&mut parent.children, span.id);
                        self.put_node(p, parent);
                    }
                } else {
                    add_id(&mut self.roots, span.id);
                }
            },
            MessageEnum::EnterSpan(id) => {
                if let Some(mut node) = self.take_node(*id) {
                    node.intervals.push(TimeInterval { entered: Some(time), exited: None });
                    self.put_node(*id, node);
                }
            },
            MessageEnum::ExitSpan(id) => {
                if let Some(mut node) = self.take_node(*id) {
                    let n = node.intervals.len();
                    if n > 0 && node.intervals[n - 1].exited.is_none() {
                        let entered = node.intervals[n - 1].entered;
                        node.intervals.set(n - 1, TimeInterval { entered, exited: Some(time) });
                    } else {
                        node.intervals.push(TimeInterval { entered: None, exited: Some(time) });
                    }
                    self.put_node(*id, node);
                }
            },
            MessageEnum::DestroySpan(id) => {
                if let Some(mut node) = self.take_node(*id) {
                    node.lifetime.exited = Some(time);
                    self.put_node(*id, node);
                }
            },
            MessageEnum::SpanFollowsFrom { span, follows } => {
                if let Some(mut node) = self.take_node(*span) {
                    node.follows = Some(*follows);
                    self.put_node(*span, node);
                }
            },
            MessageEnum::DataEvent(ev) => {
                if let Some(p) = ev.parent_span_id {
                    if let Some(mut node) = self.take_node(p) {
                        push_event(&mut node.events, time, ev);
                        self.put_node(p, node);
                    }
                } else {
                    push_event(&mut self.orphan_events, time, ev);
                }
            },
        }
        let ghost want = step(old(self)@, *message);
        assert(self@.nodes =~= want.nodes);
        assert(self@.callsites =~= want.callsites);
        assert(self@.roots =~= want.roots);
        assert(self@.orphan_events =~= want.orphan_events);
        r
    }
}

/// The name that a query shows for span `id`: its callsite's name where the
/// span and its callsite are known, else the id in decimal.
pub open spec fn name_of(t: SpanTreeView, id: SpanId) -> Seq<char> {
    if t.nodes.contains_key(id) && t.callsites.contains_key(t.nodes[id].span.callsite_id) {
        t.callsites[t.nodes[id].span.callsite_id].name@
    } else {
        decimal(id as nat)
    }
}

/// The structural parent recorded for `id`, if `id` is known.
pub open spec fn parent_of(t: SpanTreeView, id: SpanId) -> Option<SpanId> {
    if t.nodes.contains_key(id) {
        t.nodes[id].span.parent_span_id
    } else {
        None
    }
}

/// `id`, then its parent, its parent's parent, and so on, taking at most
/// `fuel` steps up.
pub open spec fn lineage(t: SpanTreeView, id: SpanId, fuel: nat) -> Seq<SpanId>
    decreases fuel,
{
    match parent_of(t, id) {
        Some(p) => if fuel > 0 {
            seq![id] + lineage(t, p, (fuel - 1) as nat)
        } else {
            seq![id]
        },
        None => seq![id],
    }
}

/// The names of the spans `ids`.
pub open spec fn names_of(t: SpanTreeView, ids: Seq<SpanId>) -> Seq<Seq<char>> {
    ids.map_values(|a: SpanId| name_of(t, a))
}

/// The separator between two names of an ancestry chain.
pub open spec fn arrow_sep() -> Seq<char> {
    seq![' ', '\u{27a1}', ' ']
}

/// The ancestry of `id`, root first. The walk up takes at most as many
/// steps as there are spans, which no chain without a cycle needs.
pub open spec fn ancestry_of(t: SpanTreeView, id: SpanId) -> Seq<char> {
    joined(names_of(t, lineage(t, id, t.nodes.len())).reverse(), arrow_sep())
}

proof fn lemma_lineage_head(t: SpanTreeView, id: SpanId, fuel: nat)
    ensures
        lineage(t, id, fuel).len() >= 1,
        lineage(t, id, fuel)[0] == id,
{
}

impl SpanTree {
    /// The name of span `span_id`; never fails.
    pub fn span_name(&self, span_id: &SpanId) -> (r: String)
        ensures
            r@ == name_of(self@, *span_id),
            self@.nodes.dom().finite(),
            self@.callsites.dom().finite(),
    {
        proof {
            self.lemma_view_finite();
        }
        match self.nodes.get(span_id) {
            Some(node) => match self.callsites.get(&node.span.callsite_id) {
                Some(callsite) => callsite.name.clone(),
                None => decimal_string(*span_id),
            },
            None => decimal_string(*span_id),
        }
    }

    /// The names from the root of `span_id`'s chain of parents down to
    /// `span_id` itself, joined by arrows.
    pub fn span_ancestry(&self, span_id: &SpanId) -> (r: String)
        ensures
            r@ == ancestry_of(self@, *span_id),
            self@.nodes.dom().finite(),
            self@.callsites.dom().finite(),
    {
        proof {
            self.lemma_view_finite();
        }
        let ghost t = self@;
        let ghost whole = lineage(t, *span_id, t.nodes.len());
        let mut names: Vec<String> = Vec::new();
        names.push(self.span_name(span_id));
        let mut current: SpanId = *span_id;
        let mut fuel: usize = self.nodes.len();
        assert(t.nodes.dom() =~= self.nodes@.dom());
        let ghost mut ids: Seq<SpanId> = seq![*span_id];
        proof {
            lemma_lineage_head(t, *span_id, fuel as nat);
            assert(whole =~= ids + whole.drop_first());
            assert(texts(names@) =~= names_of(t, ids));
        }
        loop
            invariant
                t == self@,
                texts(names@) == names_of(t, ids),
                ids + lineage(t, current, fuel as nat).drop_first() == whole,
            ensures
                texts(names@) == names_of(t, whole),
            decreases fuel,
        {
            let next = match self.nodes.get(&current) {
                Some(node) => node.span.parent_span_id,
                None => None,
            };
            if fuel == 0 {
                assert(lineage(t, current, fuel as nat).drop_first() =~= Seq::<SpanId>::empty());
                assert(ids =~= whole);
                break;
            }
            match next {
                Some(p) => {
                    let ghost rest = lineage(t, p, (fuel - 1) as nat);
                    proof {
                        lemma_lineage_head(t, p, (fuel - 1) as nat);
                        assert(lineage(t, current, fuel as nat).drop_first() =~= rest);
                        assert(rest =~= seq![p] + rest.drop_first());
                        assert(ids.push(p) + rest.drop_first() =~= ids + rest);
                    }
                    let name = self.span_name(&p);
                    let ghost before = names@;
                    names.push(name);
                    current = p;
                    fuel = fuel - 1;
                    proof {
                        assert(names@ =~= before.push(name));
                        assert(texts(names@) =~= texts(before).push(name@));
                        assert(names_of(t, ids.push(p)) =~= names_of(t, ids).push(name_of(t, p)));
                        ids = ids.push(p);
                    }
                },
                None => {
                    assert(lineage(t, current, fuel as nat).drop_first() =~= Seq::<SpanId>::empty());
                    assert(ids =~= whole);
                    break;
                },
            }
        }
        let mut rooted: Vec<String> = Vec::new();
        let mut i: usize = names.len();
        while i > 0
            invariant
                i <= names@.len(),
                rooted@ == names@.subrange(i as int, names@.len() as int).reverse(),
            decreases i,
        {
            i = i - 1;
            rooted.push(names[i].clone());
            assert(rooted@ =~= names@.subrange(i as int, names@.len() as int).reverse());
        }
        let sep = " \u{27a1} ";
        proof {
            reveal_strlit(" \u{27a1} ");
            assert(sep@ =~= arrow_sep());
            assert(names@.subrange(0, names@.len() as int) =~= names@);
            assert(texts(rooted@) =~= texts(names@).reverse());
        }
        join_names(&rooted, sep)
    }
}

impl Default for SpanTree {
    fn default() -> (r: SpanTree)
        ensures
            r@ == empty_tree(),
    {
        SpanTree::new()
    }
}

impl SpanTree {
    /// The spans created without a parent, each once.
    pub fn roots(&self) -> (r: &Vec<SpanId>)
        ensures
            r@ == self@.roots,
    {
        &self.roots
    }

    /// The events recorded without an owning span, in arrival order.
    pub fn orphan_events(&self) -> (r: &Vec<(Time, DataEvent)>)
        ensures
            timed_views(r@) == self@.orphan_events,
    {
        &self.orphan_events
    }

    /// The record of span `span_id`, if it is known.
    pub fn node(&self, span_id: &SpanId) -> (r: Option<&SpanNode>)
        ensures
            match r {
                Some(n) => self@.nodes.contains_key(*span_id) && n@ == self@.nodes[*span_id],
                None => !self@.nodes.contains_key(*span_id),
            },
    {
        self.nodes.get(span_id)
    }

    /// The callsite registered under `callsite_id`, if any.
    pub fn callsite(&self, callsite_id: &CallsiteId) -> (r: Option<&Callsite>)
        ensures
            match r {
                Some(c) => self@.callsites.contains_key(*callsite_id) && *c == self@.callsites[*callsite_id],
                None => !self@.callsites.contains_key(*callsite_id),
            },
    {
        self.callsites.get(callsite_id)
    }
}

} // verus!
