//! The plain data that flows through the span tree.
use vstd::prelude::*;

verus! {

/// Identifier of an instrumentation point.
pub type CallsiteId = u64;

/// Identifier of a span.
pub type SpanId = u64;

/// A logical timestamp, in nanoseconds.
#[derive(Clone, Copy, Debug, PartialEq, Eq, Structural)]
pub struct Time {
    pub nanos_since_epoch: i64,
}

/// Severity of a callsite.
#[derive(Clone, Copy, Debug, PartialEq, Eq, Structural)]
pub enum Level {
    Trace,
    Debug,
    Info,
    Warn,
    Error,
}

/// Static description of one instrumentation point.
#[derive(Debug)]
pub struct Callsite {
    pub id: CallsiteId,
    pub name: String,
    pub level: Level,
    pub location: String,
}

impl Callsite {
    /// An independent copy holding the same values.
    pub fn copy(&self) -> (r: Callsite)
        ensures
            r == *self,
    {
        Callsite {
            id: self.id,
            name: self.name.clone(),
            level: self.level,
            location: self.location.clone(),
        }
    }
}

/// Definition of a logical unit of work.
#[derive(Clone, Copy, Debug, PartialEq, Eq, Structural)]
pub struct Span {
    pub id: SpanId,
    pub parent_span_id: Option<SpanId>,
    pub callsite_id: CallsiteId,
}

/// One open/close window; either end may be unobserved.
#[derive(Clone, Copy, Debug, PartialEq, Eq, Structural)]
pub struct TimeInterval {
    pub entered: Option<Time>,
    pub exited: Option<Time>,
}

/// A timestamped structured record.
#[derive(Debug)]
pub struct DataEvent {
    pub callsite_id: CallsiteId,
    pub parent_span_id: Option<SpanId>,
    pub fields: Vec<(String, String)>,
}

/// What a data event holds, as mathematical values.
pub struct DataEventView {
    pub callsite_id: CallsiteId,
    pub parent_span_id: Option<SpanId>,
    pub fields: Seq<(String, String)>,
}

impl View for DataEvent {
    type V = DataEventView;

    open spec fn view(&self) -> DataEventView {
        DataEventView {
            callsite_id: self.callsite_id,
            parent_span_id: self.parent_span_id,
            fields: self.fields@,
        }
    }
}

impl DataEvent {
    /// An independent copy holding the same values.
    pub fn copy(&self) -> (r: DataEvent)
        ensures
            r@ == self@,
    {
        let mut fields: Vec<(String, String)> = Vec::new();
        let mut i: usize = 0;
        while i < self.fields.len()
            invariant
                i <= self.fields@.len(),
                fields@ == self.fields@.subrange(0, i as int),
            decreases self.fields@.len() - i,
        {
            let (k, v) = &self.fields[i];
            fields.push((k.clone(), v.clone()));
            i = i + 1;
            assert(fields@ =~= self.fields@.subrange(0, i as int));
        }
        assert(fields@ =~= self.fields@);
        DataEvent {
            callsite_id: self.callsite_id,
            parent_span_id: self.parent_span_id,
            fields,
        }
    }
}

/// The payload of one instrumentation message.
#[derive(Debug)]
pub enum MessageEnum {
    NewCallsite(Callsite),
    NewSpan(Span),
    EnterSpan(SpanId),
    ExitSpan(SpanId),
    DestroySpan(SpanId),
    SpanFollowsFrom { span: SpanId, follows: SpanId },
    DataEvent(DataEvent),
}

/// One instrumentation message, stamped with the time it was logged.
#[derive(Debug)]
pub struct Message {
    pub log_time: Time,
    pub msg_enum: MessageEnum,
}

} // verus!
