//! Properties of the ingestion state machine over whole message sequences.
use vstd::prelude::*;
use vstd::set_lib::lemma_len_subset;
use crate::text::joined;
use crate::model::{DataEvent, Message, MessageEnum, Span, SpanId, Time, TimeInterval};
use crate::tree::{
    ancestry_of, arrow_sep, empty_tree, fresh_node, lineage, name_of, names_of, opened_at, parent_of,
    step, with_id, SpanTreeView,
};

verus! {

/// The state after ingesting `ms` in order, starting from `t`.
pub open spec fn run(t: SpanTreeView, ms: Seq<Message>) -> SpanTreeView
    decreases ms.len(),
{
    if ms.len() == 0 {
        t
    } else {
        run(step(t, ms[0]), ms.drop_first())
    }
}

/// Finitely many callsites and spans are known, roots are listed once each,
/// every node's children are listed once each, and every node is filed under
/// its own span's id.
pub open spec fn well_formed(t: SpanTreeView) -> bool {
    &&& t.callsites.dom().finite()
    &&& t.nodes.dom().finite()
    &&& t.roots.no_duplicates()
    &&& forall|k: SpanId| #[trigger] t.nodes.contains_key(k) ==> t.nodes[k].children.no_duplicates()
    &&& forall|k: SpanId| #[trigger] t.nodes.contains_key(k) ==> t.nodes[k].span.id == k
}

/// Whether `id` is a root or a child of some known span, that is, whether a
/// walk down from the roots can reach it.
pub open spec fn listed(t: SpanTreeView, id: SpanId) -> bool {
    t.roots.contains(id) || exists|k: SpanId| #[trigger] t.nodes.contains_key(k) && t.nodes[k].children.contains(id)
}

proof fn lemma_with_id_no_duplicates(s: Seq<SpanId>, id: SpanId)
    requires
        s.no_duplicates(),
    ensures
        with_id(s, id).no_duplicates(),
{
    if !s.contains(id) {
        assert forall|i: int, j: int| 0 <= i < s.len() + 1 && 0 <= j < s.len() + 1 && i != j
            implies #[trigger] s.push(id)[i] != #[trigger] s.push(id)[j] by {
            if i == s.len() {
                assert(s[j] != id);
            } else if j == s.len() {
                assert(s[i] != id);
            }
        }
    }
}

/// The empty tree is well formed.
pub proof fn lemma_empty_well_formed()
    ensures
        well_formed(empty_tree()),
{
}

/// Ingesting any message keeps a tree well formed.
pub proof fn lemma_step_well_formed(t: SpanTreeView, m: Message)
    requires
        well_formed(t),
    ensures
        well_formed(step(t, m)),
{
    if let MessageEnum::NewSpan(span) = m.msg_enum {
        lemma_with_id_no_duplicates(t.roots, span.id);
        if let Some(p) = span.parent_span_id {
            let nodes = t.nodes.insert(span.id, fresh_node(span, m.log_time));
            if nodes.contains_key(p) {
                lemma_with_id_no_duplicates(nodes[p].children, span.id);
            }
        }
    }
}

/// One message never forgets a callsite or a span.
pub proof fn lemma_step_grows(t: SpanTreeView, m: Message)
    ensures
        t.callsites.dom().subset_of(step(t, m).callsites.dom()),
        t.nodes.dom().subset_of(step(t, m).nodes.dom()),
        t.callsites.dom().finite() ==> step(t, m).callsites.dom().finite(),
        t.nodes.dom().finite() ==> step(t, m).nodes.dom().finite(),
{
}

/// However messages follow one another, the callsites and spans known
/// before stay known, so their numbers never decrease.
pub proof fn lemma_run_grows(t: SpanTreeView, ms: Seq<Message>)
    requires
        t.callsites.dom().finite(),
        t.nodes.dom().finite(),
    ensures
        t.callsites.dom().subset_of(run(t, ms).callsites.dom()),
        t.nodes.dom().subset_of(run(t, ms).nodes.dom()),
        t.callsites.len() <= run(t, ms).callsites.len(),
        t.nodes.len() <= run(t, ms).nodes.len(),
    decreases ms.len(),
{
    if ms.len() > 0 {
        let next = step(t, ms[0]);
        lemma_step_grows(t, ms[0]);
        lemma_run_grows(next, ms.drop_first());
    }
    let end = run(t, ms);
    lemma_run_finite(t, ms);
    lemma_len_subset(t.callsites.dom(), end.callsites.dom());
    lemma_len_subset(t.nodes.dom(), end.nodes.dom());
}

proof fn lemma_run_finite(t: SpanTreeView, ms: Seq<Message>)
    requires
        t.callsites.dom().finite(),
        t.nodes.dom().finite(),
    ensures
        run(t, ms).callsites.dom().finite(),
        run(t, ms).nodes.dom().finite(),
    decreases ms.len(),
{
    if ms.len() > 0 {
        lemma_step_grows(t, ms[0]);
        lemma_run_finite(step(t, ms[0]), ms.drop_first());
    }
}

/// Creating a span, entering it, and creating a span under the same id again
/// leaves a fresh record: the interval of the first one is gone, not merged.
pub proof fn lemma_reuse_replaces(t: SpanTreeView, span: Span, t1: Time, t2: Time, t3: Time)
    requires
        span.parent_span_id is None,
    ensures
        ({
            let s1 = step(t, Message { log_time: t1, msg_enum: MessageEnum::NewSpan(span) });
            let s2 = step(s1, Message { log_time: t2, msg_enum: MessageEnum::EnterSpan(span.id) });
            let s3 = step(s2, Message { log_time: t3, msg_enum: MessageEnum::NewSpan(span) });
            &&& s2.nodes[span.id].intervals.len() == 1
            &&& s3.nodes[span.id] == fresh_node(span, t3)
            &&& s3.nodes[span.id].intervals.len() == 0
        }),
{
}

/// An exit closes the most recently entered interval: entering at `t1` and
/// `t2` and exiting at `t3` adds `[t1, open]` and `[t2, t3]`.
pub proof fn lemma_exit_closes_latest(t: SpanTreeView, id: SpanId, t1: Time, t2: Time, t3: Time)
    requires
        t.nodes.contains_key(id),
    ensures
        ({
            let s1 = step(t, Message { log_time: t1, msg_enum: MessageEnum::EnterSpan(id) });
            let s2 = step(s1, Message { log_time: t2, msg_enum: MessageEnum::EnterSpan(id) });
            let s3 = step(s2, Message { log_time: t3, msg_enum: MessageEnum::ExitSpan(id) });
            s3.nodes[id].intervals == t.nodes[id].intervals + seq![
                opened_at(t1),
                TimeInterval { entered: Some(t2), exited: Some(t3) },
            ]
        }),
{
    let s1 = step(t, Message { log_time: t1, msg_enum: MessageEnum::EnterSpan(id) });
    let s2 = step(s1, Message { log_time: t2, msg_enum: MessageEnum::EnterSpan(id) });
    let s3 = step(s2, Message { log_time: t3, msg_enum: MessageEnum::ExitSpan(id) });
    assert(s3.nodes[id].intervals =~= t.nodes[id].intervals + seq![
        opened_at(t1),
        TimeInterval { entered: Some(t2), exited: Some(t3) },
    ]);
}

/// An event without a parent joins the orphan list; one whose parent is not
/// known is dropped and changes nothing, the orphan list included.
pub proof fn lemma_orphan_or_dropped(t: SpanTreeView, ev: DataEvent, time: Time)
    ensures
        ({
            let s = step(t, Message { log_time: time, msg_enum: MessageEnum::DataEvent(ev) });
            match ev.parent_span_id {
                None => s == SpanTreeView { orphan_events: t.orphan_events.push((time, ev@)), ..t },
                Some(p) => !t.nodes.contains_key(p) ==> s == t,
            }
        }),
{
}

/// A span created under a parent that is not known is neither a root nor
/// anyone's child, so no walk down from the roots reaches it.
pub proof fn lemma_unknown_parent_unlisted(t: SpanTreeView, span: Span, time: Time)
    requires
        span.parent_span_id matches Some(x) && x != span.id && !t.nodes.contains_key(x),
        !listed(t, span.id),
    ensures
        !listed(step(t, Message { log_time: time, msg_enum: MessageEnum::NewSpan(span) }), span.id),
{
    let s = step(t, Message { log_time: time, msg_enum: MessageEnum::NewSpan(span) });
    assert forall|k: SpanId| #[trigger] s.nodes.contains_key(k) implies !s.nodes[k].children.contains(span.id) by {
        if k != span.id {
            assert(t.nodes.contains_key(k));
        }
    }
}

/// Queries read the state and nothing else: asked twice of the same state,
/// name and ancestry give the same text.
pub proof fn lemma_queries_repeat(a: SpanTreeView, b: SpanTreeView, id: SpanId)
    requires
        a == b,
    ensures
        name_of(a, id) == name_of(b, id),
        ancestry_of(a, id) == ancestry_of(b, id),
{
}

/// `chain` starts at a span without a known parent, and each later span in
/// it has the one before as its parent.
pub open spec fn is_parent_chain(t: SpanTreeView, chain: Seq<SpanId>) -> bool {
    &&& chain.len() > 0
    &&& parent_of(t, chain[0]) is None
    &&& forall|i: int| 0 < i < chain.len() ==> #[trigger] parent_of(t, chain[i]) == Some(chain[i - 1])
}

proof fn lemma_lineage_of_chain(t: SpanTreeView, chain: Seq<SpanId>, i: int, fuel: nat)
    requires
        is_parent_chain(t, chain),
        0 <= i < chain.len(),
        fuel >= i,
    ensures
        lineage(t, chain[i], fuel) == chain.subrange(0, i + 1).reverse(),
    decreases i,
{
    if i == 0 {
        assert(chain.subrange(0, 1).reverse() =~= seq![chain[0]]);
    } else {
        assert(parent_of(t, chain[i]) == Some(chain[i - 1]));
        lemma_lineage_of_chain(t, chain, i - 1, (fuel - 1) as nat);
        assert(chain.subrange(0, i + 1).reverse() =~= seq![chain[i]] + chain.subrange(0, i).reverse());
    }
}

/// Along a chain of parents without repeats, the ancestry of its last span is
/// the names of the whole chain, root first, joined by arrows: the bounded
/// walk never cuts such a chain short.
pub proof fn lemma_ancestry_of_chain(t: SpanTreeView, chain: Seq<SpanId>)
    requires
        is_parent_chain(t, chain),
        chain.no_duplicates(),
        t.nodes.dom().finite(),
    ensures
        ancestry_of(t, chain.last()) == joined(names_of(t, chain), arrow_sep()),
{
    let below = chain.drop_first();
    assert(below.no_duplicates());
    below.unique_seq_to_set();
    assert forall|k: SpanId| below.to_set().contains(k) implies t.nodes.dom().contains(k) by {
        let j = choose|j: int| 0 <= j < below.len() && below[j] == k;
        assert(parent_of(t, chain[j + 1]) == Some(chain[j]));
    }
    lemma_len_subset(below.to_set(), t.nodes.dom());
    lemma_lineage_of_chain(t, chain, chain.len() - 1, t.nodes.len());
    assert(chain.subrange(0, chain.len() as int) =~= chain);
    assert(names_of(t, chain.reverse()).reverse() =~= names_of(t, chain));
}

/// The ancestry of a child is its parent's ancestry, an arrow, then the
/// child's own name, wherever the parent heads a chain of parents without
/// repeats that does not hold the child.
pub proof fn lemma_child_ancestry(t: SpanTreeView, chain: Seq<SpanId>, child: SpanId)
    requires
        is_parent_chain(t, chain),
        chain.no_duplicates(),
        !chain.contains(child),
        parent_of(t, child) == Some(chain.last()),
        t.nodes.dom().finite(),
    ensures
        ancestry_of(t, child) == ancestry_of(t, chain.last()) + arrow_sep() + name_of(t, child),
{
    let longer = chain.push(child);
    assert forall|i: int| 0 < i < longer.len() implies #[trigger] parent_of(t, longer[i]) == Some(longer[i - 1]) by {
        if i < chain.len() {
            assert(longer[i] == chain[i] && longer[i - 1] == chain[i - 1]);
        }
    }
    assert(longer[0] == chain[0]);
    assert(longer.no_duplicates());
    lemma_ancestry_of_chain(t, chain);
    lemma_ancestry_of_chain(t, longer);
    assert(longer.last() == child);
    let names = names_of(t, longer);
    assert(names.drop_last() =~= names_of(t, chain));
}

} // verus!
