//! Validation and clock-drift correction of transaction events.
use vstd::prelude::*;

use crate::convert::reversed;
use crate::processor::{ProcessingAction, ProcessingResult, ProcessingState, Processor};
use crate::protocol::{Context, ContextInner, Contexts, Event, EventType, Span, TraceContext};
use crate::timestamp::{in_range, Timestamp};
use crate::types::{first_key_index, lemma_first_key_index, Annotated, Meta, Object};

verus! {

/// Whether the event is a transaction.
pub open spec fn is_transaction(e: Event) -> bool {
    e.ty.0 == Some(EventType::Transaction)
}

/// Whether the transaction name is absent or empty.
pub open spec fn name_missing(e: Event) -> bool {
    match e.transaction.0 {
        Some(s) => s@.len() == 0,
        None => true,
    }
}

/// Why the start and end of an event break the rules, if they do.
pub open spec fn event_timestamps_rejection(e: Event) -> Option<Seq<char>> {
    match (e.start_timestamp.0, e.timestamp.0) {
        (Some(start), Some(end)) => if end@ < start@ {
            Some("end timestamp is smaller than start timestamp"@)
        } else {
            None
        },
        (_, None) => Some("timestamp hard-required for transaction events"@),
        (None, _) => Some("start_timestamp hard-required for transaction events"@),
    }
}

/// Why the trace context of an event breaks the rules, if it does.
pub open spec fn trace_context_rejection(e: Event) -> Option<Seq<char>> {
    let required = "trace context hard-required for transaction events"@;
    match e.contexts.0 {
        None => Some(required),
        Some(Contexts(o)) => match first_key_index(o, "trace"@) {
            None => Some(required),
            Some(i) => match o.entries@[i].1.0 {
                None => Some(required),
                Some(ContextInner(Context::Trace(tc))) => if tc.trace_id.0 is None {
                    Some("trace context is missing trace_id"@)
                } else if tc.span_id.0 is None {
                    Some("trace context is missing span_id"@)
                } else {
                    None
                },
                Some(ContextInner(Context::Other(_))) => Some(
                    "context at event.contexts.trace must be of type trace."@,
                ),
            },
        },
    }
}

/// Whether some slot of the span list is empty.
pub open spec fn has_null_span(e: Event) -> bool {
    e.spans.0 matches Some(v) && exists|i: int| 0 <= i < v@.len() && (#[trigger] v@[i]).0 is None
}

/// Why a span breaks the rules, if it does.
pub open spec fn span_rejection(s: Span) -> Option<Seq<char>> {
    match (s.start_timestamp.0, s.timestamp.0) {
        (Some(start), Some(end)) => if end@ < start@ {
            Some("end timestamp in span is smaller than start timestamp"@)
        } else if s.trace_id.0 is None {
            Some("span is missing trace_id"@)
        } else if s.span_id.0 is None {
            Some("span is missing span_id"@)
        } else {
            None
        },
        (_, None) => Some("span is missing timestamp"@),
        (None, _) => Some("span is missing start_timestamp"@),
    }
}

/// The reason of the first span, in order, that breaks the rules.
pub open spec fn first_span_rejection(spans: Seq<Annotated<Span>>) -> Option<Seq<char>>
    decreases spans.len(),
{
    if spans.len() == 0 {
        None
    } else {
        match spans[0].0 {
            Some(s) => match span_rejection(s) {
                Some(m) => Some(m),
                None => first_span_rejection(spans.subrange(1, spans.len() as int)),
            },
            None => first_span_rejection(spans.subrange(1, spans.len() as int)),
        }
    }
}

/// Why the event is rejected, if it is: the first rule that it breaks.
pub open spec fn event_rejection(e: Event) -> Option<Seq<char>> {
    if !is_transaction(e) {
        None
    } else if event_timestamps_rejection(e) is Some {
        event_timestamps_rejection(e)
    } else if trace_context_rejection(e) is Some {
        trace_context_rejection(e)
    } else if has_null_span(e) {
        Some("spans must be valid in transaction event"@)
    } else {
        match e.spans.0 {
            Some(v) => first_span_rejection(v@),
            None => None,
        }
    }
}

/// Whether the event is rejected by a rule checked before any change but the name: the
/// order of its points, its trace context, or an empty span slot.
pub open spec fn rejected_before_descent(e: Event) -> bool {
    ||| event_timestamps_rejection(e) is Some
    ||| trace_context_rejection(e) is Some
    ||| has_null_span(e)
}

/// The name after processing: an absent or empty one becomes the placeholder, diagnostics
/// kept.
pub open spec fn name_after(e: Event, r: Event) -> bool {
    &&& r.transaction.1 == e.transaction.1
    &&& if name_missing(e) {
        r.transaction.0 matches Some(x) && x@ == "<unlabeled transaction>"@
    } else {
        r.transaction.0 == e.transaction.0
    }
}

/// `r` is `t` moved `d` nanoseconds earlier, or `t` itself where that leaves the range.
pub open spec fn shifted(t: Timestamp, d: int, r: Timestamp) -> bool {
    if in_range(t@ - d) {
        r@ == t@ - d
    } else {
        r == t
    }
}

/// The annotated point after the shift: diagnostics kept, a present point shifted.
pub open spec fn shifted_annotated(a: Annotated<Timestamp>, d: int, r: Annotated<Timestamp>) -> bool {
    &&& r.1 == a.1
    &&& match a.0 {
        Some(t) => r.0 matches Some(u) && shifted(t, d, u),
        None => r.0 is None,
    }
}

/// The operation name after defaulting: an absent one becomes "default".
pub open spec fn defaulted_op(op: Annotated<String>, r: Annotated<String>) -> bool {
    &&& r.1 == op.1
    &&& match op.0 {
        Some(s) => r.0 == Some(s),
        None => r.0 matches Some(x) && x@ == "default"@,
    }
}

/// A span after processing: its points shifted and its operation name defaulted.
pub open spec fn span_after(s: Span, d: int, r: Span) -> bool {
    &&& shifted_annotated(s.timestamp, d, r.timestamp)
    &&& shifted_annotated(s.start_timestamp, d, r.start_timestamp)
    &&& defaulted_op(s.op, r.op)
    &&& r.span_id == s.span_id
    &&& r.trace_id == s.trace_id
}

/// A slot of the span list after processing: the span present and processed.
pub open spec fn span_slot_after(a: Annotated<Span>, d: int, b: Annotated<Span>) -> bool {
    &&& b.1 == a.1
    &&& a.0 matches Some(s)
    &&& b.0 matches Some(s2)
    &&& span_after(s, d, s2)
}

/// The contexts after processing: only the operation name of the trace context defaulted.
pub open spec fn contexts_after(c: Contexts, r: Contexts) -> bool {
    let o = c.0;
    let p = r.0;
    &&& p.entries@.len() == o.entries@.len()
    &&& first_key_index(o, "trace"@) matches Some(i) && {
        &&& forall|j: int| 0 <= j < o.entries@.len() && j != i ==> p.entries@[j] == o.entries@[j]
        &&& p.entries@[i].0 == o.entries@[i].0
        &&& p.entries@[i].1.1 == o.entries@[i].1.1
        &&& o.entries@[i].1.0 matches Some(ContextInner(Context::Trace(tc)))
        &&& p.entries@[i].1.0 matches Some(ContextInner(Context::Trace(tc2)))
        &&& tc2.trace_id == tc.trace_id
        &&& tc2.span_id == tc.span_id
        &&& defaulted_op(tc.op, tc2.op)
    }
}

/// A transaction event after processing with drift `d`.
pub open spec fn event_after(e: Event, d: int, r: Event) -> bool {
    &&& r.ty == e.ty
    &&& name_after(e, r)
    &&& shifted_annotated(e.timestamp, d, r.timestamp)
    &&& shifted_annotated(e.start_timestamp, d, r.start_timestamp)
    &&& r.contexts.1 == e.contexts.1
    &&& e.contexts.0 matches Some(c) && r.contexts.0 matches Some(c2) && contexts_after(c, c2)
    &&& r.spans.1 == e.spans.1
    &&& match e.spans.0 {
        Some(v) => r.spans.0 matches Some(w) && w@.len() == v@.len() && forall|i: int|
            0 <= i < v@.len() ==> span_slot_after(v@[i], d, #[trigger] w@[i]),
        None => r.spans.0 is None,
    }
}

/// Whether some slot of the list is empty.
fn has_empty_slot(spans: &Vec<Annotated<Span>>) -> (r: bool)
    ensures
        r == exists|i: int| 0 <= i < spans@.len() && (#[trigger] spans@[i]).0 is None,
{
    let mut k: usize = 0;
    while k < spans.len()
        invariant
            k <= spans@.len(),
            forall|j: int| 0 <= j < k ==> (#[trigger] spans@[j]).0 is Some,
        decreases spans@.len() - k,
    {
        if spans[k].0.is_none() {
            return true;
        }
        k = k + 1;
    }
    false
}

/// Validates transaction events and corrects their timestamps for client clock drift.
pub struct TransactionsProcessor {
    /// When the client says it sent the event; `None` falls back to the event's end.
    sent_at: Option<Timestamp>,
    client_clock_drift: Option<i128>,
    now: Timestamp,
}

impl TransactionsProcessor {
    /// The client's claimed send time.
    pub closed spec fn spec_sent_at(self) -> Option<Timestamp> {
        self.sent_at
    }

    /// The time of receipt that drift is measured against.
    pub closed spec fn spec_now(self) -> Timestamp {
        self.now
    }

    /// The drift computed from the last transaction event, in nanoseconds.
    pub closed spec fn spec_drift(self) -> Option<i128> {
        self.client_clock_drift
    }

    /// Whether a drift has been measured, so that timestamps can be corrected.
    pub open spec fn drift_known(self) -> bool {
        self.spec_drift() is Some
    }

    /// The drift that an event gives: the send time, or else the event's end, less the
    /// time of receipt.
    pub open spec fn drift_for(self, end: Timestamp) -> int {
        match self.spec_sent_at() {
            Some(s) => s@ - self.spec_now()@,
            None => end@ - self.spec_now()@,
        }
    }

    /// A processor that measures drift against `now`, the time the event was received. The
    /// caller reads the clock, so that one processing pass is reproducible.
    pub fn new(sent_at: Option<Timestamp>, now: Timestamp) -> (r: TransactionsProcessor)
        ensures
            r.spec_sent_at() == sent_at,
            r.spec_now() == now,
            r.spec_drift() is None,
    {
        TransactionsProcessor { sent_at, client_clock_drift: None, now }
    }

    fn process_annotated_timestamp(&mut self, a: &mut Annotated<Timestamp>, state: &ProcessingState)
        requires
            old(self).drift_known(),
        ensures
            *final(self) == *old(self),
            shifted_annotated(*old(a), old(self).spec_drift()->0 as int, *final(a)),
    {
        match a.0.take() {
            Some(t) => {
                let mut t = t;
                let _ = self.process_timestamp(&mut t, &mut a.1, state);
                a.0 = Some(t);
            },
            None => {},
        }
    }


    /// Moves a point earlier by the drift, leaving it as it is where the result would leave
    /// the representable range. Only a transaction event, once its drift is measured, runs
    /// this step: calling it before is a misuse that `requires` excludes.
    pub fn process_timestamp(
        &mut self,
        timestamp: &mut Timestamp,
        meta: &mut Meta,
        state: &ProcessingState,
    ) -> (r: ProcessingResult)
        requires
            old(self).drift_known(),
        ensures
            r is Ok,
            *final(self) == *old(self),
            *final(meta) == *old(meta),
            shifted(*old(timestamp), old(self).spec_drift()->0 as int, *final(timestamp)),
    {
        let drift = self.client_clock_drift.unwrap();
        if let Some(t) = timestamp.checked_sub_nanos(drift) {
            *timestamp = t;
        }
        Ok(())
    }

    /// Checks a span, defaults its operation name, and shifts its points by the drift. Runs as
    /// part of a transaction event, once its drift is measured.
    pub fn process_span(&mut self, span: &mut Span, meta: &mut Meta, state: &ProcessingState) -> (r:
        ProcessingResult)
        requires
            old(self).drift_known(),
        ensures
            *final(self) == *old(self),
            *final(meta) == *old(meta),
            match span_rejection(*old(span)) {
                Some(m) => r matches Err(ProcessingAction::InvalidTransaction(x)) && x@ == m,
                None => r is Ok && span_after(*old(span), old(self).spec_drift()->0 as int, *final(span)),
            },
    {
        match (span.start_timestamp.0, span.timestamp.0) {
            (Some(start), Some(end)) => {
                if end.nanos_since_epoch() < start.nanos_since_epoch() {
                    return Err(
                        ProcessingAction::InvalidTransaction(
                            "end timestamp in span is smaller than start timestamp",
                        ),
                    );
                }
            },
            (_, None) => {
                return Err(ProcessingAction::InvalidTransaction("span is missing timestamp"));
            },
            (None, _) => {
                return Err(ProcessingAction::InvalidTransaction("span is missing start_timestamp"));
            },
        }
        if span.trace_id.0.is_none() {
            return Err(ProcessingAction::InvalidTransaction("span is missing trace_id"));
        }
        if span.span_id.0.is_none() {
            return Err(ProcessingAction::InvalidTransaction("span is missing span_id"));
        }
        if span.op.0.is_none() {
            span.op.0 = Some("default".to_owned());
        }
        self.process_annotated_timestamp(&mut span.timestamp, state);
        self.process_annotated_timestamp(&mut span.start_timestamp, state);
        Ok(())
    }

}

impl Processor for TransactionsProcessor {
    /// Validates a transaction event and corrects its timestamps; other events pass as they
    /// are. In order: an absent or empty name becomes a placeholder; the end and start must
    /// be present and ordered; the trace context must be present, of the trace kind, with
    /// trace and span identifiers; no span slot may be empty. Only then is the drift measured
    /// from the end, or the send time, and the trace context's absent operation name set to
    /// "default"; then every span is checked in order and every timestamp moved earlier by
    /// the drift. The first broken rule rejects the whole event; a rule broken before the
    /// spans are reached leaves everything but the name as it came in.
    fn process_event(&mut self, event: &mut Event, meta: &mut Meta, state: &ProcessingState) -> (r:
        ProcessingResult)
        ensures
            *final(meta) == *old(meta),
            final(self).spec_sent_at() == old(self).spec_sent_at(),
            final(self).spec_now() == old(self).spec_now(),
            !is_transaction(*old(event)) ==> r is Ok && *final(event) == *old(event) && *final(self)
                == *old(self),
            is_transaction(*old(event)) ==> final(event).ty == old(event).ty && name_after(
                *old(event),
                *final(event),
            ),
            is_transaction(*old(event)) && rejected_before_descent(*old(event)) ==> {
                &&& final(event).timestamp == old(event).timestamp
                &&& final(event).start_timestamp == old(event).start_timestamp
                &&& final(event).contexts == old(event).contexts
                &&& final(event).spans == old(event).spans
            },
            is_transaction(*old(event)) ==> match event_rejection(*old(event)) {
                Some(m) => r matches Err(ProcessingAction::InvalidTransaction(x)) && x@ == m,
                None => {
                    &&& r is Ok
                    &&& old(event).timestamp.0 matches Some(end)
                    &&& final(self).spec_drift() matches Some(d)
                    &&& d == old(self).drift_for(end)
                    &&& event_after(*old(event), d as int, *final(event))
                },
            },
    {
        match event.ty.0 {
            Some(EventType::Transaction) => {},
            _ => {
                return Ok(());
            },
        }
        let missing = match &event.transaction.0 {
            Some(s) => s.as_str().is_empty(),
            None => true,
        };
        if missing {
            event.transaction.0 = Some("<unlabeled transaction>".to_owned());
        }
        let (start, end) = match (event.start_timestamp.0, event.timestamp.0) {
            (Some(start), Some(end)) => (start, end),
            (_, None) => {
                return Err(
                    ProcessingAction::InvalidTransaction("timestamp hard-required for transaction events"),
                );
            },
            (None, _) => {
                return Err(
                    ProcessingAction::InvalidTransaction(
                        "start_timestamp hard-required for transaction events",
                    ),
                );
            },
        };
        if end.nanos_since_epoch() < start.nanos_since_epoch() {
            return Err(
                ProcessingAction::InvalidTransaction("end timestamp is smaller than start timestamp"),
            );
        }
        let i = match &event.contexts.0 {
            None => {
                return Err(
                    ProcessingAction::InvalidTransaction(
                        "trace context hard-required for transaction events",
                    ),
                );
            },
            Some(contexts) => match contexts.0.position("trace") {
                None => {
                    return Err(
                        ProcessingAction::InvalidTransaction(
                            "trace context hard-required for transaction events",
                        ),
                    );
                },
                Some(i) => {
                    proof {
                        lemma_first_key_index(contexts.0, "trace"@, i as int);
                    }
                    match &contexts.0.entries[i].1.0 {
                        Some(ContextInner(Context::Trace(tc))) => {
                            if tc.trace_id.0.is_none() {
                                return Err(
                                    ProcessingAction::InvalidTransaction(
                                        "trace context is missing trace_id",
                                    ),
                                );
                            }
                            if tc.span_id.0.is_none() {
                                return Err(
                                    ProcessingAction::InvalidTransaction(
                                        "trace context is missing span_id",
                                    ),
                                );
                            }
                            i
                        },
                        Some(ContextInner(Context::Other(_))) => {
                            return Err(
                                ProcessingAction::InvalidTransaction(
                                    "context at event.contexts.trace must be of type trace.",
                                ),
                            );
                        },
                        None => {
                            return Err(
                                ProcessingAction::InvalidTransaction(
                                    "trace context hard-required for transaction events",
                                ),
                            );
                        },
                    }
                },
            },
        };
        let has_null = match &event.spans.0 {
            Some(spans) => has_empty_slot(spans),
            None => false,
        };
        if has_null {
            return Err(ProcessingAction::InvalidTransaction("spans must be valid in transaction event"));
        }

        // Every event-level rule holds: measure the drift and default the operation name.
        let sent_at = match self.sent_at {
            Some(s) => s,
            None => end,
        };
        self.client_clock_drift = Some(sent_at.signed_nanos_since(&self.now));
        match event.contexts.0.take() {
            Some(contexts) => {
                let mut contexts = contexts;
                let ghost entries0 = contexts.0.entries@;
                let (key, mut entry) = contexts.0.entries.remove(i);
                match entry.0.take() {
                    Some(ContextInner(Context::Trace(boxed))) => {
                        let mut tc: TraceContext = *boxed;
                        if tc.op.0.is_none() {
                            tc.op.0 = Some("default".to_owned());
                        }
                        entry.0 = Some(ContextInner(Context::Trace(Box::new(tc))));
                    },
                    other => {
                        entry.0 = other;
                    },
                }
                contexts.0.entries.insert(i, (key, entry));
                proof {
                    assert(contexts.0.entries@ =~= entries0.update(i as int, (key, entry)));
                }
                event.contexts.0 = Some(contexts);
            },
            None => {},
        }

        self.process_annotated_timestamp(&mut event.timestamp, state);
        self.process_annotated_timestamp(&mut event.start_timestamp, state);
        match event.spans.0.take() {
            Some(spans) => {
                let ghost orig = spans@;
                let ghost d = self.client_clock_drift->0 as int;
                let mut rest = reversed(spans);
                let mut out: Vec<Annotated<Span>> = Vec::new();
                let mut failed: ProcessingResult = Ok(());
                proof {
                    assert(orig.subrange(0, orig.len() as int) =~= orig);
                    assert(old(event).spans.0 == Some(spans));
                    assert(!has_null_span(*old(event)));
                    assert(event_rejection(*old(event)) == first_span_rejection(orig));
                }
                while rest.len() > 0
                    invariant
                        rest@.len() + out@.len() == orig.len(),
                        forall|j: int| 0 <= j < rest@.len() ==> rest@[j] == orig[orig.len() - 1 - j],
                        forall|j: int| 0 <= j < orig.len() ==> (#[trigger] orig[j]).0 is Some,
                        failed is Ok ==> first_span_rejection(orig) == first_span_rejection(
                            orig.subrange(out@.len() as int, orig.len() as int),
                        ),
                        failed is Ok ==> forall|j: int|
                            0 <= j < out@.len() ==> span_slot_after(orig[j], d, #[trigger] out@[j]),
                        failed is Err ==> (failed matches Err(ProcessingAction::InvalidTransaction(x))
                            && first_span_rejection(orig) == Some(x@)),
                        self.client_clock_drift matches Some(x) && x == d,
                        self.sent_at == old(self).sent_at,
                        self.now == old(self).now,
                        is_transaction(*old(event)),
                        !rejected_before_descent(*old(event)),
                        event.ty == old(event).ty,
                        name_after(*old(event), *event),
                        event_rejection(*old(event)) == first_span_rejection(orig),
                        *meta == *old(meta),
                    decreases rest@.len(),
                {
                    let ghost k = out@.len() as int;
                    let mut slot = rest.pop().unwrap();
                    proof {
                        assert(slot == orig[k]);
                        let tail = orig.subrange(k, orig.len() as int);
                        assert(tail[0] == orig[k]);
                        assert(tail.subrange(1, tail.len() as int) =~= orig.subrange(
                            k + 1,
                            orig.len() as int,
                        ));
                    }
                    if failed.is_ok() {
                        match slot.0.take() {
                            Some(s) => {
                                let mut s = s;
                                let res = self.process_span(&mut s, &mut slot.1, state);
                                slot.0 = Some(s);
                                if res.is_err() {
                                    failed = res;
                                }
                            },
                            None => {},
                        }
                    }
                    out.push(slot);
                }
                proof {
                    assert(orig.subrange(orig.len() as int, orig.len() as int).len() == 0);
                }
                // The list goes back into the event whether or not a span was rejected.
                event.spans.0 = Some(out);
                failed
            },
            None => Ok(()),
        }
    }
}

} // verus!
