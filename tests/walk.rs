use relay_general::convert::{to_payload, FromValue, ToValue};
use relay_general::ids::Uuid;
use relay_general::processor::{
    process_value, ProcessingAction, ProcessingResult, ProcessingState, Processor,
};
use relay_general::protocol::{Event, EventType, Span};
use relay_general::timestamp::Timestamp;
use relay_general::transactions::TransactionsProcessor;
use relay_general::types::{Annotated, Meta, Object, Value};

/// Records the path of every timestamp it reaches and moves each one second later.
struct Recorder {
    paths: Vec<String>,
}

impl Processor for Recorder {
    fn process_event(&mut self, event: &mut Event, _meta: &mut Meta, state: &ProcessingState) -> ProcessingResult {
        event.process_child_values(self, state)
    }

    fn process_span(&mut self, span: &mut Span, _meta: &mut Meta, state: &ProcessingState) -> ProcessingResult {
        span.process_child_values(self, state)
    }

    fn process_timestamp(
        &mut self,
        timestamp: &mut Timestamp,
        _meta: &mut Meta,
        state: &ProcessingState,
    ) -> ProcessingResult {
        self.paths.push(state.path().to_text());
        *timestamp = timestamp.checked_sub_nanos(-1_000_000_000).unwrap();
        Ok(())
    }
}

/// Rejects every span, counting the spans it was shown.
struct NoSpans {
    seen: usize,
}

impl Processor for NoSpans {
    fn process_event(&mut self, event: &mut Event, _meta: &mut Meta, state: &ProcessingState) -> ProcessingResult {
        event.process_child_values(self, state)
    }

    fn process_span(&mut self, span: &mut Span, _meta: &mut Meta, _state: &ProcessingState) -> ProcessingResult {
        self.seen += 1;
        span.op = Annotated::new("seen".to_owned());
        Err(ProcessingAction::InvalidTransaction("no spans"))
    }
}

fn clock_now() -> Timestamp {
    let now = chrono::Utc::now();
    Timestamp::from_unix(now.timestamp(), now.timestamp_subsec_nanos()).unwrap()
}

fn secs(n: i64) -> Timestamp {
    Timestamp::from_unix(n, 0).unwrap()
}

fn two_span_event() -> Annotated<Event> {
    let span = |a: i64, b: i64| {
        Annotated::new(Span {
            start_timestamp: Annotated::new(secs(a)),
            timestamp: Annotated::new(secs(b)),
            ..Default::default()
        })
    };
    Annotated::new(Event {
        ty: Annotated::new(EventType::Transaction),
        start_timestamp: Annotated::new(secs(10)),
        timestamp: Annotated::new(secs(20)),
        spans: Annotated::new(vec![span(11, 12), span(13, 14)]),
        ..Default::default()
    })
}

#[test]
fn hooks_descend_only_when_asked() {
    let mut event = two_span_event();
    let mut recorder = Recorder { paths: Vec::new() };
    process_value(&mut event, &mut recorder, &ProcessingState::root()).unwrap();
    assert_eq!(
        recorder.paths,
        vec![
            "timestamp",
            "start_timestamp",
            "spans.0.timestamp",
            "spans.0.start_timestamp",
            "spans.1.timestamp",
            "spans.1.start_timestamp",
        ]
    );
    let e = event.value().unwrap();
    assert_eq!(e.timestamp.value().unwrap().timestamp(), 21);
    assert_eq!(e.spans.value().unwrap()[1].value().unwrap().start_timestamp.value().unwrap().timestamp(), 14);
}

#[test]
fn default_hooks_leave_the_event_alone() {
    struct Idle;
    impl Processor for Idle {}
    let mut event = two_span_event();
    process_value(&mut event, &mut Idle, &ProcessingState::root()).unwrap();
    assert_eq!(event, two_span_event());
}

#[test]
fn failing_hook_stops_the_walk() {
    let mut event = two_span_event();
    let mut processor = NoSpans { seen: 0 };
    assert_eq!(
        process_value(&mut event, &mut processor, &ProcessingState::root()),
        Err(ProcessingAction::InvalidTransaction("no spans"))
    );
    assert_eq!(processor.seen, 1);
    let spans = event.value().unwrap().spans.value().unwrap();
    assert_eq!(spans.len(), 2);
    assert_eq!(spans[0].value().unwrap().op.value().unwrap(), "seen");
    assert!(spans[1].value().unwrap().op.value().is_none());
}

#[test]
fn non_trace_context_is_rejected() {
    let mut event = two_span_event();
    let mut processor = TransactionsProcessor::new(None, clock_now());
    let mut contexts = Object::new();
    contexts.insert(
        "trace".to_owned(),
        Annotated::new(relay_general::protocol::ContextInner(
            relay_general::protocol::Context::Other(Object::new()),
        )),
    );
    event.0.as_mut().unwrap().contexts = Annotated::new(relay_general::protocol::Contexts(contexts));
    assert_eq!(
        process_value(&mut event, &mut processor, &ProcessingState::root()),
        Err(ProcessingAction::InvalidTransaction(
            "context at event.contexts.trace must be of type trace."
        ))
    );
}

#[test]
fn end_before_start_is_rejected() {
    let mut event = Annotated::new(Event {
        ty: Annotated::new(EventType::Transaction),
        start_timestamp: Annotated::new(secs(20)),
        timestamp: Annotated::new(secs(10)),
        ..Default::default()
    });
    assert_eq!(
        process_value(&mut event, &mut TransactionsProcessor::new(None, clock_now()), &ProcessingState::root()),
        Err(ProcessingAction::InvalidTransaction(
            "end timestamp is smaller than start timestamp"
        ))
    );
}

fn traced(start: i64, end: i64, spans: Vec<Annotated<Span>>) -> Annotated<Event> {
    let mut contexts = Object::new();
    contexts.insert(
        "trace".to_owned(),
        Annotated::new(relay_general::protocol::ContextInner(
            relay_general::protocol::Context::Trace(Box::new(relay_general::protocol::TraceContext {
                trace_id: Annotated::new(relay_general::protocol::TraceId("t".into())),
                span_id: Annotated::new(relay_general::protocol::SpanId("s".into())),
                op: Annotated::empty(),
            })),
        )),
    );
    Annotated::new(Event {
        ty: Annotated::new(EventType::Transaction),
        start_timestamp: Annotated::new(secs(start)),
        timestamp: Annotated::new(secs(end)),
        contexts: Annotated::new(relay_general::protocol::Contexts(contexts)),
        spans: Annotated::new(spans),
        ..Default::default()
    })
}

#[test]
fn span_end_before_start_is_rejected() {
    let span = Span {
        start_timestamp: Annotated::new(secs(20)),
        timestamp: Annotated::new(secs(10)),
        trace_id: Annotated::new(relay_general::protocol::TraceId("t".into())),
        span_id: Annotated::new(relay_general::protocol::SpanId("s".into())),
        ..Default::default()
    };
    let mut event = traced(0, 30, vec![Annotated::new(span)]);
    let mut processor = TransactionsProcessor::new(None, secs(30));
    assert_eq!(
        process_value(&mut event, &mut processor, &ProcessingState::root()),
        Err(ProcessingAction::InvalidTransaction(
            "end timestamp in span is smaller than start timestamp"
        ))
    );
}

#[test]
fn rejection_before_spans_changes_only_the_name() {
    // The start lies after the end: rejected before any drift is applied.
    let mut event = traced(20, 10, vec![]);
    let before = format!("{:?}", event.value().unwrap().timestamp);
    let mut processor = TransactionsProcessor::new(None, secs(1000));
    assert!(process_value(&mut event, &mut processor, &ProcessingState::root()).is_err());
    let e = event.value().unwrap();
    assert_eq!(format!("{:?}", e.timestamp), before);
    assert_eq!(e.transaction.value().unwrap(), "<unlabeled transaction>");
}

#[test]
fn explicit_send_time_sets_the_drift() {
    let mut event = two_span_event();
    let mut contexts = Object::new();
    contexts.insert(
        "trace".to_owned(),
        Annotated::new(relay_general::protocol::ContextInner(
            relay_general::protocol::Context::Trace(Box::new(relay_general::protocol::TraceContext {
                trace_id: Annotated::new(relay_general::protocol::TraceId("t".into())),
                span_id: Annotated::new(relay_general::protocol::SpanId("s".into())),
                op: Annotated::empty(),
            })),
        )),
    );
    {
        let e = event.0.as_mut().unwrap();
        e.contexts = Annotated::new(relay_general::protocol::Contexts(contexts));
        for slot in e.spans.0.as_mut().unwrap().iter_mut() {
            let s = slot.0.as_mut().unwrap();
            s.trace_id = Annotated::new(relay_general::protocol::TraceId("t".into()));
            s.span_id = Annotated::new(relay_general::protocol::SpanId("s".into()));
        }
    }
    // The client says it sent the event at 25 while the server got it at 30: five seconds
    // are added to every point.
    let mut processor = TransactionsProcessor::new(Some(secs(25)), secs(30));
    process_value(&mut event, &mut processor, &ProcessingState::root()).unwrap();
    let e = event.value().unwrap();
    assert_eq!(e.timestamp.value().unwrap().timestamp(), 25);
    assert_eq!(e.start_timestamp.value().unwrap().timestamp(), 15);
    let span = e.spans.value().unwrap()[0].value().unwrap();
    assert_eq!(span.start_timestamp.value().unwrap().timestamp(), 16);
    assert_eq!(span.timestamp.value().unwrap().timestamp(), 17);
    assert_eq!(span.op.value().unwrap(), "default");
}

#[test]
fn shift_past_the_range_keeps_the_point() {
    // End at 1 and receipt at 0, no send time: a drift of one second is subtracted.
    let mut processor = TransactionsProcessor::new(None, secs(0));
    let mut event = traced(0, 1, vec![]);
    process_value(&mut event, &mut processor, &ProcessingState::root()).unwrap();
    let min = Timestamp::from_unix(-8_334_601_228_800, 0).unwrap();
    let mut t = min;
    processor.process_timestamp(&mut t, &mut Meta::new(), &ProcessingState::root()).unwrap();
    assert_eq!(t, min);
    let mut later = secs(100);
    processor.process_timestamp(&mut later, &mut Meta::new(), &ProcessingState::root()).unwrap();
    assert_eq!(later.timestamp(), 99);
}

#[test]
fn payload_drops_empty_entries_and_meta() {
    let mut inner = Object::new();
    inner.insert("gone".to_owned(), Annotated::empty());
    inner.insert("kept".to_owned(), Annotated::new(Value::U64(1)));
    let mut flagged = Meta::new();
    flagged.add_error("why".to_owned());
    inner.insert("explained".to_owned(), Annotated(None, flagged));
    let v = Annotated::new(Value::Array(vec![
        Annotated::new(Value::Object(inner)),
        Annotated::empty(),
        Annotated::new(Value::String("x".to_owned())),
    ]));
    match to_payload(&v) {
        Value::Array(items) => {
            assert_eq!(items.len(), 3);
            assert!(items.iter().all(|i| i.1.is_empty() && i.0.is_some()));
            match items[0].0.as_ref().unwrap() {
                Value::Object(o) => {
                    assert_eq!(o.len(), 2);
                    assert_eq!(o.entries[0].0, "kept");
                    assert_eq!(o.entries[1].0, "explained");
                    assert_eq!(o.entries[1].1 .0, Some(Value::Null));
                }
                _ => panic!("object expected"),
            }
            assert_eq!(items[1].0, Some(Value::Null));
            assert_eq!(items[2].0, Some(Value::String("x".to_owned())));
        }
        _ => panic!("array expected"),
    }
    assert_eq!(to_payload(&Annotated::empty()), Value::Null);
}

#[test]
fn uuid_parses_and_prints() {
    let text = "4c79f60c-1121-4eb3-8604-f4ae0781bfb2";
    let u = Uuid::from_value(Annotated::new(Value::String("4C79F60C11214EB38604F4AE0781BFB2".to_owned())));
    let id = u.0.unwrap();
    assert_eq!(id.0, 0x4c79f60c11214eb38604f4ae0781bfb2);
    assert_eq!(Uuid::to_value(Annotated::new(id)).0, Some(Value::String(text.to_owned())));
    let bad = Uuid::from_value(Annotated::new(Value::String("nope".to_owned())));
    assert!(bad.0.is_none());
    assert_eq!(bad.1.error_at(0), "expected a uuid");
    let wrong = Uuid::from_value(Annotated::new(Value::U64(3)));
    assert_eq!(wrong.1.error_at(0), "expected a uuid");
}

#[test]
fn path_text_joins_segments() {
    let root = ProcessingState::root();
    assert_eq!(root.path().to_text(), "");
    let a = root.enter_static("spans", None);
    let b = a.enter_index(12, None);
    let c = b.enter_static("op", None);
    assert_eq!(c.path().to_text(), "spans.12.op");
}
