use span_tree::model::{
    Callsite, DataEvent, Level, Message, MessageEnum, Span, SpanId, Time, TimeInterval,
};
use span_tree::text::decimal_string;
use span_tree::tree::{Anomaly, SpanTree};

fn at(nanos: i64) -> Time {
    Time { nanos_since_epoch: nanos }
}

fn msg(nanos: i64, msg_enum: MessageEnum) -> Message {
    Message { log_time: at(nanos), msg_enum }
}

fn callsite(id: u64, name: &str) -> Message {
    msg(
        0,
        MessageEnum::NewCallsite(Callsite {
            id,
            name: name.to_owned(),
            level: Level::Info,
            location: "main.rs:1".to_owned(),
        }),
    )
}

fn new_span(nanos: i64, id: SpanId, parent: Option<SpanId>, callsite_id: u64) -> Message {
    msg(nanos, MessageEnum::NewSpan(Span { id, parent_span_id: parent, callsite_id }))
}

fn event(parent: Option<SpanId>, key: &str, value: &str) -> DataEvent {
    DataEvent {
        callsite_id: 9,
        parent_span_id: parent,
        fields: vec![(key.to_owned(), value.to_owned())],
    }
}

fn ingest_all(tree: &mut SpanTree, messages: Vec<Message>) -> Vec<Vec<Anomaly>> {
    let mut out = Vec::new();
    for m in &messages {
        out.push(tree.on_mesage(m));
    }
    out
}

fn count_known(tree: &SpanTree, ids: &[u64]) -> usize {
    ids.iter().filter(|id| tree.node(id).is_some()).count()
}

fn reachable_from_roots(tree: &SpanTree) -> Vec<SpanId> {
    let mut seen = Vec::new();
    let mut stack: Vec<SpanId> = tree.roots().clone();
    while let Some(id) = stack.pop() {
        if seen.contains(&id) {
            continue;
        }
        seen.push(id);
        if let Some(node) = tree.node(&id) {
            stack.extend(node.children.iter().copied());
        }
    }
    seen
}

#[test]
fn known_spans_and_callsites_never_decrease() {
    let mut tree = SpanTree::new();
    let messages = vec![
        callsite(1, "a"),
        new_span(1, 10, None, 1),
        new_span(2, 11, Some(10), 1),
        callsite(1, "renamed"),
        new_span(3, 10, None, 1),
        msg(4, MessageEnum::DestroySpan(11)),
        msg(5, MessageEnum::ExitSpan(99)),
        new_span(6, 12, Some(77), 1),
    ];
    let ids = [10, 11, 12];
    let mut last = 0;
    for m in &messages {
        tree.on_mesage(m);
        let now = count_known(&tree, &ids);
        assert!(now >= last);
        assert!(tree.callsite(&1).is_some() || now == 0);
        last = now;
    }
    assert_eq!(last, 3);
    assert_eq!(tree.callsite(&1).unwrap().name, "renamed");
}

#[test]
fn reused_id_discards_earlier_state() {
    let mut tree = SpanTree::new();
    let anomalies = ingest_all(
        &mut tree,
        vec![
            new_span(1, 5, None, 1),
            msg(2, MessageEnum::EnterSpan(5)),
            new_span(3, 5, None, 1),
        ],
    );
    let node = tree.node(&5).unwrap();
    assert!(node.intervals.is_empty());
    assert_eq!(node.lifetime, TimeInterval { entered: Some(at(3)), exited: None });
    assert_eq!(anomalies[2], vec![Anomaly::ReusedIdentifier]);
    assert_eq!(tree.roots(), &vec![5]);
}

#[test]
fn exit_closes_most_recent_interval() {
    let mut tree = SpanTree::new();
    ingest_all(
        &mut tree,
        vec![
            new_span(0, 1, None, 1),
            msg(1, MessageEnum::EnterSpan(1)),
            msg(2, MessageEnum::EnterSpan(1)),
            msg(3, MessageEnum::ExitSpan(1)),
        ],
    );
    assert_eq!(
        tree.node(&1).unwrap().intervals,
        vec![
            TimeInterval { entered: Some(at(1)), exited: None },
            TimeInterval { entered: Some(at(2)), exited: Some(at(3)) },
        ]
    );
}

#[test]
fn exit_without_enter_records_closed_only_interval() {
    let mut tree = SpanTree::new();
    let anomalies = ingest_all(
        &mut tree,
        vec![
            new_span(0, 1, None, 1),
            msg(4, MessageEnum::ExitSpan(1)),
            msg(5, MessageEnum::EnterSpan(1)),
            msg(6, MessageEnum::ExitSpan(1)),
            msg(7, MessageEnum::ExitSpan(1)),
        ],
    );
    assert_eq!(
        tree.node(&1).unwrap().intervals,
        vec![
            TimeInterval { entered: None, exited: Some(at(4)) },
            TimeInterval { entered: Some(at(5)), exited: Some(at(6)) },
            TimeInterval { entered: None, exited: Some(at(7)) },
        ]
    );
    assert_eq!(anomalies[1], vec![Anomaly::InconsistentInterval]);
    assert_eq!(anomalies[3], Vec::<Anomaly>::new());
    assert_eq!(anomalies[4], vec![Anomaly::InconsistentInterval]);
}

#[test]
fn orphan_event_kept_and_unknown_parent_event_dropped() {
    let mut tree = SpanTree::new();
    let anomalies = ingest_all(
        &mut tree,
        vec![
            msg(1, MessageEnum::DataEvent(event(None, "k", "orphan"))),
            msg(2, MessageEnum::DataEvent(event(Some(42), "k", "lost"))),
        ],
    );
    let orphans = tree.orphan_events();
    assert_eq!(orphans.len(), 1);
    assert_eq!(orphans[0].0, at(1));
    assert_eq!(orphans[0].1.fields, vec![("k".to_owned(), "orphan".to_owned())]);
    assert!(tree.node(&42).is_none());
    assert_eq!(anomalies[0], Vec::<Anomaly>::new());
    assert_eq!(anomalies[1], vec![Anomaly::UnknownReference]);
}

#[test]
fn event_attached_to_known_span() {
    let mut tree = SpanTree::new();
    ingest_all(
        &mut tree,
        vec![
            new_span(0, 3, None, 1),
            msg(8, MessageEnum::DataEvent(event(Some(3), "answer", "42"))),
        ],
    );
    let node = tree.node(&3).unwrap();
    assert_eq!(node.events.len(), 1);
    assert_eq!(node.events[0].0, at(8));
    assert_eq!(node.events[0].1.fields, vec![("answer".to_owned(), "42".to_owned())]);
    assert!(tree.orphan_events().is_empty());
}

#[test]
fn ancestry_renders_root_first() {
    let mut tree = SpanTree::new();
    ingest_all(
        &mut tree,
        vec![
            callsite(1, "A"),
            callsite(2, "B"),
            callsite(3, "C"),
            new_span(1, 100, None, 1),
            new_span(2, 200, Some(100), 2),
            new_span(3, 300, Some(200), 3),
        ],
    );
    assert_eq!(tree.span_ancestry(&300), "A \u{27a1} B \u{27a1} C");
    assert_eq!(tree.span_ancestry(&100), "A");
    assert_eq!(tree.span_name(&200), "B");
}

#[test]
fn unknown_span_and_callsite_render_as_id() {
    let mut tree = SpanTree::new();
    assert_eq!(tree.span_name(&4021), "4021");
    assert_eq!(tree.span_ancestry(&7), "7");
    ingest_all(&mut tree, vec![new_span(0, 15, None, 99), new_span(0, 16, Some(15), 99)]);
    assert_eq!(tree.span_name(&15), "15");
    assert_eq!(tree.span_ancestry(&16), "15 \u{27a1} 16");
}

#[test]
fn ancestry_stops_at_unknown_parent() {
    let mut tree = SpanTree::new();
    ingest_all(&mut tree, vec![callsite(1, "leaf"), new_span(0, 2, Some(50), 1)]);
    assert_eq!(tree.span_ancestry(&2), "50 \u{27a1} leaf");
}

#[test]
fn ancestry_terminates_on_cycle() {
    let mut tree = SpanTree::new();
    ingest_all(&mut tree, vec![callsite(1, "x"), new_span(0, 1, Some(1), 1)]);
    let text = tree.span_ancestry(&1);
    assert_eq!(text, "x \u{27a1} x");
}

#[test]
fn unknown_parent_excluded_from_roots_and_children() {
    let mut tree = SpanTree::new();
    let anomalies = ingest_all(
        &mut tree,
        vec![new_span(0, 1, None, 1), new_span(1, 2, Some(1), 1), new_span(2, 3, Some(999), 1)],
    );
    assert_eq!(anomalies[2], vec![Anomaly::UnknownReference]);
    assert!(tree.node(&3).is_some());
    assert!(!tree.roots().contains(&3));
    assert!(!tree.node(&1).unwrap().children.contains(&3));
    let mut seen = reachable_from_roots(&tree);
    seen.sort();
    assert_eq!(seen, vec![1, 2]);
}

#[test]
fn repeated_queries_agree() {
    let mut tree = SpanTree::new();
    ingest_all(
        &mut tree,
        vec![callsite(1, "A"), new_span(0, 1, None, 1), new_span(0, 2, Some(1), 5)],
    );
    let first = (tree.span_name(&2), tree.span_ancestry(&2));
    let second = (tree.span_name(&2), tree.span_ancestry(&2));
    assert_eq!(first, second);
    assert_eq!(first.1, "A \u{27a1} 2");
}

#[test]
fn destroy_and_follows_overwrite_with_anomaly() {
    let mut tree = SpanTree::new();
    let anomalies = ingest_all(
        &mut tree,
        vec![
            new_span(0, 1, None, 1),
            msg(1, MessageEnum::DestroySpan(1)),
            msg(2, MessageEnum::DestroySpan(1)),
            msg(3, MessageEnum::SpanFollowsFrom { span: 1, follows: 8 }),
            msg(4, MessageEnum::SpanFollowsFrom { span: 1, follows: 9 }),
            msg(5, MessageEnum::DestroySpan(77)),
            msg(6, MessageEnum::SpanFollowsFrom { span: 77, follows: 1 }),
            msg(7, MessageEnum::EnterSpan(77)),
        ],
    );
    let node = tree.node(&1).unwrap();
    assert_eq!(node.lifetime, TimeInterval { entered: Some(at(0)), exited: Some(at(2)) });
    assert_eq!(node.follows, Some(9));
    assert_eq!(anomalies[1], Vec::<Anomaly>::new());
    assert_eq!(anomalies[2], vec![Anomaly::InconsistentInterval]);
    assert_eq!(anomalies[3], Vec::<Anomaly>::new());
    assert_eq!(anomalies[4], vec![Anomaly::InconsistentInterval]);
    assert_eq!(anomalies[5], vec![Anomaly::UnknownReference]);
    assert_eq!(anomalies[6], vec![Anomaly::UnknownReference]);
    assert_eq!(anomalies[7], vec![Anomaly::UnknownReference]);
    assert!(tree.node(&77).is_none());
}

#[test]
fn children_recorded_once_and_anomalies_combine() {
    let mut tree = SpanTree::new();
    let anomalies = ingest_all(
        &mut tree,
        vec![
            new_span(0, 1, None, 1),
            new_span(1, 2, Some(1), 1),
            new_span(2, 2, Some(1), 1),
            new_span(3, 2, Some(55), 1),
        ],
    );
    assert_eq!(tree.node(&1).unwrap().children, vec![2]);
    assert_eq!(anomalies[2], vec![Anomaly::ReusedIdentifier]);
    assert_eq!(
        anomalies[3],
        vec![Anomaly::ReusedIdentifier, Anomaly::UnknownReference]
    );
}

#[test]
fn anomalies_query_matches_ingest() {
    let mut tree = SpanTree::new();
    tree.on_mesage(&new_span(0, 1, None, 1));
    let exit = msg(1, MessageEnum::ExitSpan(1));
    let predicted = tree.anomalies(&exit);
    let reported = tree.on_mesage(&exit);
    assert_eq!(predicted, reported);
    assert_eq!(reported, vec![Anomaly::InconsistentInterval]);
}

#[test]
fn default_tree_is_empty() {
    let tree = SpanTree::default();
    assert!(tree.roots().is_empty());
    assert!(tree.orphan_events().is_empty());
    assert!(tree.node(&0).is_none());
    assert!(tree.callsite(&0).is_none());
}

#[test]
fn decimal_rendering_matches_display() {
    assert_eq!(decimal_string(0), "0");
    assert_eq!(decimal_string(7), "7");
    assert_eq!(decimal_string(10), "10");
    assert_eq!(decimal_string(1234567890), "1234567890");
    assert_eq!(decimal_string(u64::MAX), u64::MAX.to_string());
}

#[test]
fn child_ancestry_extends_parent_ancestry() {
    let mut tree = SpanTree::new();
    ingest_all(
        &mut tree,
        vec![
            callsite(1, "root"),
            callsite(2, "mid"),
            new_span(0, 1, None, 1),
            new_span(1, 2, Some(1), 2),
            new_span(2, 3, Some(2), 2),
            new_span(3, 4, Some(3), 9),
        ],
    );
    let parent = tree.span_ancestry(&3);
    assert_eq!(parent, "root \u{27a1} mid \u{27a1} mid");
    assert_eq!(tree.span_ancestry(&4), format!("{} \u{27a1} 4", parent));
}
