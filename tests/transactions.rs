use chrono::{TimeZone, Utc};
use relay_general::processor::{process_value, ProcessingAction, ProcessingState};
use relay_general::protocol::{
    Context, ContextInner, Contexts, Event, EventType, Span, SpanId, TraceContext, TraceId,
};
use relay_general::timestamp::Timestamp;
use relay_general::transactions::TransactionsProcessor;
use relay_general::types::{Annotated, Object};

fn clock_now() -> Timestamp {
    let now = chrono::Utc::now();
    Timestamp::from_unix(now.timestamp(), now.timestamp_subsec_nanos()).unwrap()
}

fn at(y: i32, mo: u32, d: u32, h: u32, mi: u32, s: u32) -> Timestamp {
    let dt = Utc.with_ymd_and_hms(y, mo, d, h, mi, s).unwrap();
    Timestamp::from_unix(dt.timestamp(), dt.timestamp_subsec_nanos()).unwrap()
}

fn trace_contexts(trace_id: Option<&str>, span_id: Option<&str>, op: Option<&str>) -> Contexts {
    let mut contexts = Object::new();
    contexts.insert(
        "trace".to_owned(),
        Annotated::new(ContextInner(Context::Trace(Box::new(TraceContext {
            trace_id: match trace_id {
                Some(t) => Annotated::new(TraceId(t.into())),
                None => Annotated::empty(),
            },
            span_id: match span_id {
                Some(s) => Annotated::new(SpanId(s.into())),
                None => Annotated::empty(),
            },
            op: match op {
                Some(o) => Annotated::new(o.to_owned()),
                None => Annotated::empty(),
            },
        })))),
    );
    Contexts(contexts)
}

fn new_test_event() -> Annotated<Event> {
    let start = at(2000, 1, 1, 0, 0, 0);
    let end = at(2000, 1, 1, 0, 0, 10);
    Annotated::new(Event {
        ty: Annotated::new(EventType::Transaction),
        transaction: Annotated::new("/".to_owned()),
        start_timestamp: Annotated::new(start),
        timestamp: Annotated::new(end),
        contexts: Annotated::new(trace_contexts(
            Some("4c79f60c11214eb38604f4ae0781bfb2"),
            Some("fa90fdead5f74053"),
            Some("http.server"),
        )),
        spans: Annotated::new(vec![Annotated::new(Span {
            start_timestamp: Annotated::new(start),
            timestamp: Annotated::new(end),
            trace_id: Annotated::new(TraceId("4c79f60c11214eb38604f4ae0781bfb2".into())),
            span_id: Annotated::new(SpanId("fa90fdead5f74053".into())),
            op: Annotated::new("db.statement".to_owned()),
        })]),
        ..Default::default()
    })
}

fn trace_op(event: &Annotated<Event>) -> String {
    let contexts = event.value().unwrap().contexts.value().unwrap();
    match contexts.0.get("trace").unwrap().value().unwrap() {
        ContextInner(Context::Trace(tc)) => tc.op.value().unwrap().clone(),
        _ => panic!("trace context expected"),
    }
}

fn event_with(
    timestamp: Option<Timestamp>,
    start: Option<Timestamp>,
    contexts: Option<Contexts>,
    spans: Option<Vec<Annotated<Span>>>,
) -> Annotated<Event> {
    Annotated::new(Event {
        ty: Annotated::new(EventType::Transaction),
        timestamp: Annotated(timestamp, Default::default()),
        start_timestamp: Annotated(start, Default::default()),
        contexts: Annotated(contexts, Default::default()),
        spans: Annotated(spans, Default::default()),
        ..Default::default()
    })
}

fn run(event: &mut Annotated<Event>) -> Result<(), ProcessingAction> {
    process_value(event, &mut TransactionsProcessor::new(None, clock_now()), &ProcessingState::root())
}

fn valid_contexts() -> Contexts {
    trace_contexts(
        Some("4c79f60c11214eb38604f4ae0781bfb2"),
        Some("fa90fdead5f74053"),
        Some("http.server"),
    )
}

fn jan1() -> Timestamp {
    at(2000, 1, 1, 0, 0, 0)
}

#[test]
fn test_skips_non_transaction_events() {
    let mut event = Annotated::new(Event::default());
    run(&mut event).unwrap();
    assert!(event.value().is_some());
}

#[test]
fn test_discards_when_missing_timestamp() {
    let mut event = Annotated::new(Event {
        ty: Annotated::new(EventType::Transaction),
        ..Default::default()
    });
    assert_eq!(
        run(&mut event),
        Err(ProcessingAction::InvalidTransaction(
            "timestamp hard-required for transaction events"
        ))
    );
}

#[test]
fn test_discards_when_missing_start_timestamp() {
    let mut event = event_with(Some(jan1()), None, None, None);
    assert_eq!(
        run(&mut event),
        Err(ProcessingAction::InvalidTransaction(
            "start_timestamp hard-required for transaction events"
        ))
    );
}

#[test]
fn test_discards_on_missing_contexts_map() {
    let mut event = event_with(Some(jan1()), Some(jan1()), None, None);
    assert_eq!(
        run(&mut event),
        Err(ProcessingAction::InvalidTransaction(
            "trace context hard-required for transaction events"
        ))
    );
}

#[test]
fn test_discards_on_missing_context() {
    let mut event = event_with(Some(jan1()), Some(jan1()), Some(Contexts(Object::new())), None);
    assert_eq!(
        run(&mut event),
        Err(ProcessingAction::InvalidTransaction(
            "trace context hard-required for transaction events"
        ))
    );
}

#[test]
fn test_discards_on_null_context() {
    let mut contexts = Object::new();
    contexts.insert("trace".to_owned(), Annotated::empty());
    let mut event = event_with(Some(jan1()), Some(jan1()), Some(Contexts(contexts)), None);
    assert_eq!(
        run(&mut event),
        Err(ProcessingAction::InvalidTransaction(
            "trace context hard-required for transaction events"
        ))
    );
}

#[test]
fn test_discards_on_missing_trace_id_in_context() {
    let mut event = event_with(Some(jan1()), Some(jan1()), Some(trace_contexts(None, None, None)), None);
    assert_eq!(
        run(&mut event),
        Err(ProcessingAction::InvalidTransaction(
            "trace context is missing trace_id"
        ))
    );
}

#[test]
fn test_discards_on_missing_span_id_in_context() {
    let mut event = event_with(
        Some(jan1()),
        Some(jan1()),
        Some(trace_contexts(Some("4c79f60c11214eb38604f4ae0781bfb2"), None, None)),
        None,
    );
    assert_eq!(
        run(&mut event),
        Err(ProcessingAction::InvalidTransaction(
            "trace context is missing span_id"
        ))
    );
}

#[test]
fn test_defaults_missing_op_in_context() {
    let start = at(2000, 1, 1, 0, 0, 0);
    let end = at(2000, 1, 1, 0, 0, 10);
    let mut event = Annotated::new(Event {
        ty: Annotated::new(EventType::Transaction),
        transaction: Annotated::new("/".to_owned()),
        timestamp: Annotated::new(end),
        start_timestamp: Annotated::new(start),
        contexts: Annotated::new(trace_contexts(
            Some("4c79f60c11214eb38604f4ae0781bfb2"),
            Some("fa90fdead5f74053"),
            None,
        )),
        ..Default::default()
    });
    let mut processor = TransactionsProcessor::new(None, end);
    process_value(&mut event, &mut processor, &ProcessingState::root()).unwrap();

    let e = event.value().unwrap();
    assert_eq!(e.ty.value(), Some(&EventType::Transaction));
    assert_eq!(e.transaction.value().unwrap(), "/");
    assert_eq!(e.timestamp.value().unwrap().timestamp(), 946684810);
    assert_eq!(e.start_timestamp.value().unwrap().timestamp(), 946684800);
    assert_eq!(trace_op(&event), "default");
}

#[test]
fn test_allows_transaction_event_without_span_list() {
    let mut event = event_with(Some(jan1()), Some(jan1()), Some(valid_contexts()), None);
    run(&mut event).unwrap();
    assert!(event.value().is_some());
}

#[test]
fn test_allows_transaction_event_with_empty_span_list() {
    let mut event = event_with(Some(jan1()), Some(jan1()), Some(valid_contexts()), Some(vec![]));
    run(&mut event).unwrap();
    assert!(event.value().is_some());
}

#[test]
fn test_discards_transaction_event_with_nulled_out_span() {
    let mut event = event_with(
        Some(jan1()),
        Some(jan1()),
        Some(valid_contexts()),
        Some(vec![Annotated::empty()]),
    );
    assert_eq!(
        run(&mut event),
        Err(ProcessingAction::InvalidTransaction(
            "spans must be valid in transaction event"
        ))
    );
}

#[test]
fn test_discards_transaction_event_with_span_with_missing_timestamp() {
    let mut event = event_with(
        Some(jan1()),
        Some(jan1()),
        Some(valid_contexts()),
        Some(vec![Annotated::new(Span {
            ..Default::default()
        })]),
    );
    assert_eq!(
        run(&mut event),
        Err(ProcessingAction::InvalidTransaction("span is missing timestamp"))
    );
}

#[test]
fn test_discards_transaction_event_with_span_with_missing_start_timestamp() {
    let mut event = event_with(
        Some(jan1()),
        Some(jan1()),
        Some(valid_contexts()),
        Some(vec![Annotated::new(Span {
            timestamp: Annotated::new(jan1()),
            ..Default::default()
        })]),
    );
    assert_eq!(
        run(&mut event),
        Err(ProcessingAction::InvalidTransaction(
            "span is missing start_timestamp"
        ))
    );
}

#[test]
fn test_discards_transaction_event_with_span_with_missing_trace_id() {
    let mut event = event_with(
        Some(jan1()),
        Some(jan1()),
        Some(valid_contexts()),
        Some(vec![Annotated::new(Span {
            timestamp: Annotated::new(jan1()),
            start_timestamp: Annotated::new(jan1()),
            ..Default::default()
        })]),
    );
    assert_eq!(
        run(&mut event),
        Err(ProcessingAction::InvalidTransaction("span is missing trace_id"))
    );
}

#[test]
fn test_discards_transaction_event_with_span_with_missing_span_id() {
    let mut event = event_with(
        Some(jan1()),
        Some(jan1()),
        Some(valid_contexts()),
        Some(vec![Annotated::new(Span {
            timestamp: Annotated::new(jan1()),
            start_timestamp: Annotated::new(jan1()),
            trace_id: Annotated::new(TraceId("4c79f60c11214eb38604f4ae0781bfb2".into())),
            ..Default::default()
        })]),
    );
    assert_eq!(
        run(&mut event),
        Err(ProcessingAction::InvalidTransaction("span is missing span_id"))
    );
}

#[test]
fn test_defaults_transaction_event_with_span_with_missing_op() {
    let start = at(2000, 1, 1, 0, 0, 0);
    let end = at(2000, 1, 1, 0, 0, 10);
    let mut event = Annotated::new(Event {
        ty: Annotated::new(EventType::Transaction),
        transaction: Annotated::new("/".to_owned()),
        timestamp: Annotated::new(end),
        start_timestamp: Annotated::new(start),
        contexts: Annotated::new(valid_contexts()),
        spans: Annotated::new(vec![Annotated::new(Span {
            timestamp: Annotated::new(at(2000, 1, 1, 0, 0, 10)),
            start_timestamp: Annotated::new(at(2000, 1, 1, 0, 0, 0)),
            trace_id: Annotated::new(TraceId("4c79f60c11214eb38604f4ae0781bfb2".into())),
            span_id: Annotated::new(SpanId("fa90fdead5f74053".into())),
            ..Default::default()
        })]),
        ..Default::default()
    });
    let mut processor = TransactionsProcessor::new(None, end);
    process_value(&mut event, &mut processor, &ProcessingState::root()).unwrap();

    let e = event.value().unwrap();
    assert_eq!(e.transaction.value().unwrap(), "/");
    assert_eq!(e.timestamp.value().unwrap().timestamp(), 946684810);
    assert_eq!(e.start_timestamp.value().unwrap().timestamp(), 946684800);
    assert_eq!(trace_op(&event), "http.server");
    let span = e.spans.value().unwrap()[0].value().unwrap();
    assert_eq!(span.timestamp.value().unwrap().timestamp(), 946684810);
    assert_eq!(span.start_timestamp.value().unwrap().timestamp(), 946684800);
    assert_eq!(span.op.value().unwrap(), "default");
    assert_eq!(span.span_id.value().unwrap().0, "fa90fdead5f74053");
    assert_eq!(span.trace_id.value().unwrap().0, "4c79f60c11214eb38604f4ae0781bfb2");
}

#[test]
fn test_allows_valid_transaction_event_with_spans() {
    let mut event = new_test_event();
    let end = *event.value().unwrap().timestamp.value().unwrap();
    let mut processor = TransactionsProcessor::new(None, end);
    process_value(&mut event, &mut processor, &ProcessingState::root()).unwrap();

    let e = event.value().unwrap();
    assert_eq!(e.transaction.value().unwrap(), "/");
    assert_eq!(e.timestamp.value().unwrap().timestamp(), 946684810);
    assert_eq!(e.start_timestamp.value().unwrap().timestamp(), 946684800);
    assert_eq!(trace_op(&event), "http.server");
    let span = e.spans.value().unwrap()[0].value().unwrap();
    assert_eq!(span.timestamp.value().unwrap().timestamp(), 946684810);
    assert_eq!(span.start_timestamp.value().unwrap().timestamp(), 946684800);
    assert_eq!(span.op.value().unwrap(), "db.statement");
}

#[test]
fn test_no_clock_drift() {
    let start = at(2000, 1, 1, 0, 0, 0);
    let end = at(2000, 1, 2, 0, 0, 0);
    let mut event = event_with(Some(end), Some(start), Some(valid_contexts()), Some(vec![]));
    let mut processor = TransactionsProcessor::new(None, end);
    process_value(&mut event, &mut processor, &ProcessingState::root()).unwrap();

    assert_eq!(*event.value().unwrap().timestamp.value().unwrap(), end);
    assert_eq!(*event.value().unwrap().start_timestamp.value().unwrap(), start);
}

#[test]
fn test_some_clock_drift() {
    let start = at(2000, 1, 1, 0, 0, 0);
    let end = at(2000, 1, 2, 0, 0, 0);
    let now = at(2000, 1, 3, 0, 0, 0);
    let mut event = event_with(Some(end), Some(start), Some(valid_contexts()), Some(vec![]));
    let mut processor = TransactionsProcessor::new(None, now);
    process_value(&mut event, &mut processor, &ProcessingState::root()).unwrap();

    assert_eq!(*event.value().unwrap().timestamp.value().unwrap(), now);
    // shift by 1 day == end
    assert_eq!(*event.value().unwrap().start_timestamp.value().unwrap(), end);
}

#[test]
fn test_defaults_transaction_name_when_missing() {
    let mut event = new_test_event();
    let end = *event.value().unwrap().timestamp.value().unwrap();
    event.0.as_mut().unwrap().transaction.set_value(None);
    let mut processor = TransactionsProcessor::new(None, end);
    process_value(&mut event, &mut processor, &ProcessingState::root()).unwrap();

    let e = event.value().unwrap();
    assert_eq!(e.transaction.value().unwrap(), "<unlabeled transaction>");
    assert_eq!(e.timestamp.value().unwrap().timestamp(), 946684810);
    assert_eq!(e.start_timestamp.value().unwrap().timestamp(), 946684800);
    assert_eq!(trace_op(&event), "http.server");
    let span = e.spans.value().unwrap()[0].value().unwrap();
    assert_eq!(span.op.value().unwrap(), "db.statement");
}

#[test]
fn test_defaults_transaction_name_when_empty() {
    let mut event = new_test_event();
    let end = *event.value().unwrap().timestamp.value().unwrap();
    event.0.as_mut().unwrap().transaction.set_value(Some("".to_owned()));
    let mut processor = TransactionsProcessor::new(None, end);
    process_value(&mut event, &mut processor, &ProcessingState::root()).unwrap();

    let e = event.value().unwrap();
    assert_eq!(e.transaction.value().unwrap(), "<unlabeled transaction>");
    assert_eq!(e.timestamp.value().unwrap().timestamp(), 946684810);
    assert_eq!(e.start_timestamp.value().unwrap().timestamp(), 946684800);
    assert_eq!(trace_op(&event), "http.server");
    let span = e.spans.value().unwrap()[0].value().unwrap();
    assert_eq!(span.op.value().unwrap(), "db.statement");
}

#[test]
fn null_span_among_valid_spans_rejects_the_event() {
    let mut event = new_test_event();
    {
        let spans = event.0.as_mut().unwrap().spans.0.as_mut().unwrap();
        let valid = spans[0].clone();
        spans.push(Annotated::empty());
        spans.push(valid);
    }
    assert_eq!(
        run(&mut event),
        Err(ProcessingAction::InvalidTransaction(
            "spans must be valid in transaction event"
        ))
    );
}
