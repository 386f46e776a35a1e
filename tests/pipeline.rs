use relay_general::convert::{to_payload, FromValue, ToValue};
use relay_general::processor::{process_value, ProcessingState};
use relay_general::protocol::{Context, EventType, Event, Span};
use relay_general::timestamp::Timestamp;
use relay_general::transactions::TransactionsProcessor;
use relay_general::types::{Annotated, Float, Object, Value};

fn obj(entries: Vec<(&str, Value)>) -> Value {
    let mut o = Object::new();
    for (k, v) in entries {
        o.insert(k.to_owned(), Annotated::new(v));
    }
    Value::Object(o)
}

fn text(s: &str) -> Value {
    Value::String(s.to_owned())
}

fn wire_event() -> Annotated<Value> {
    let trace = obj(vec![
        ("type", text("trace")),
        ("trace_id", text("4c79f60c11214eb38604f4ae0781bfb2")),
        ("span_id", text("fa90fdead5f74053")),
    ]);
    let span = obj(vec![
        ("start_timestamp", Value::U64(946684800)),
        ("timestamp", Value::F64(Float { significand: 9466848100, exponent: -1 })),
        ("trace_id", text("4c79f60c11214eb38604f4ae0781bfb2")),
        ("span_id", text("fa90fdead5f74053")),
    ]);
    Annotated::new(obj(vec![
        ("type", text("transaction")),
        ("transaction", text("/")),
        ("start_timestamp", text("2000-01-01T00:00:00Z")),
        ("timestamp", Value::F64(Float { significand: 946684810, exponent: 0 })),
        ("contexts", obj(vec![("trace", trace), ("device", obj(vec![("model", text("x"))]))])),
        ("spans", Value::Array(vec![Annotated::new(span)])),
        ("extra", Value::Bool(true)),
    ]))
}

#[test]
fn event_parses_from_values() {
    let event = Event::from_value(wire_event());
    let e = event.value().unwrap();
    assert_eq!(e.ty.value(), Some(&EventType::Transaction));
    assert_eq!(e.transaction.value().unwrap(), "/");
    assert_eq!(e.start_timestamp.value().unwrap().timestamp(), 946684800);
    assert_eq!(e.timestamp.value().unwrap().timestamp(), 946684810);
    let contexts = &e.contexts.value().unwrap().0;
    match contexts.get("trace").unwrap().value().unwrap().0 {
        Context::Trace(ref tc) => {
            assert_eq!(tc.trace_id.value().unwrap().0, "4c79f60c11214eb38604f4ae0781bfb2");
            assert!(tc.op.value().is_none());
        }
        _ => panic!("trace context expected"),
    }
    match contexts.get("device").unwrap().value().unwrap().0 {
        Context::Other(ref o) => assert_eq!(o.len(), 1),
        _ => panic!("other context expected"),
    }
    let span: &Span = e.spans.value().unwrap()[0].value().unwrap();
    assert_eq!(span.timestamp.value().unwrap().timestamp(), 946684810);
}

#[test]
fn processed_event_serializes_back() {
    let mut event = Event::from_value(wire_event());
    let end = *event.value().unwrap().timestamp.value().unwrap();
    let mut processor = TransactionsProcessor::new(None, end);
    process_value(&mut event, &mut processor, &ProcessingState::root()).unwrap();
    let out = to_payload(&Event::to_value(event));
    let o = match out {
        Value::Object(o) => o,
        _ => panic!("object expected"),
    };
    assert_eq!(o.get("type").unwrap().0, Some(text("transaction")));
    assert_eq!(
        o.get("timestamp").unwrap().0,
        Some(Value::F64(Float { significand: 946_684_810_000_000, exponent: -6 }))
    );
    let contexts = match o.get("contexts").unwrap().0.as_ref().unwrap() {
        Value::Object(c) => c,
        _ => panic!("object expected"),
    };
    let trace = match contexts.get("trace").unwrap().0.as_ref().unwrap() {
        Value::Object(t) => t,
        _ => panic!("object expected"),
    };
    assert_eq!(trace.get("op").unwrap().0, Some(text("default")));
    assert_eq!(trace.get("type").unwrap().0, Some(text("trace")));
    let spans = match o.get("spans").unwrap().0.as_ref().unwrap() {
        Value::Array(s) => s,
        _ => panic!("array expected"),
    };
    let span = match spans[0].0.as_ref().unwrap() {
        Value::Object(s) => s,
        _ => panic!("object expected"),
    };
    assert_eq!(span.get("op").unwrap().0, Some(text("default")));
    assert_eq!(
        span.get("start_timestamp").unwrap().0,
        Some(Value::F64(Float { significand: 946_684_800_000_000, exponent: -6 }))
    );
}

#[test]
fn bad_fields_stay_local_in_events() {
    let v = Annotated::new(obj(vec![
        ("type", text("nonsense")),
        ("timestamp", Value::Bool(false)),
        ("transaction", text("/")),
    ]));
    let event = Event::from_value(v);
    let e = event.value().unwrap();
    assert!(e.ty.value().is_none());
    assert_eq!(e.ty.meta().error_at(0), "expected an event type");
    assert_eq!(e.timestamp.meta().error_at(0), "expected timestamp");
    assert_eq!(e.transaction.value().unwrap(), "/");
    let tree = Event::extract_meta_tree(&event);
    assert_eq!(tree.children.len(), 2);
    assert_eq!(tree.children[0].0, "type");
    assert_eq!(tree.children[1].0, "timestamp");
    let not_an_event = Event::from_value(Annotated::new(Value::U64(1)));
    assert_eq!(not_an_event.meta().error_at(0), "expected an event");
}

#[test]
fn event_type_names() {
    assert_eq!(EventType::from_name("transaction"), Some(EventType::Transaction));
    assert_eq!(EventType::from_name("expectstaple"), Some(EventType::ExpectStaple));
    assert_eq!(EventType::from_name("Transaction"), None);
    assert_eq!(EventType::Csp.name(), "csp");
    let t = Timestamp::from_unix(0, 0).unwrap();
    assert_eq!(Timestamp::to_value(Annotated::new(t)).0, Some(Value::F64(Float { significand: 0, exponent: -6 })));
}
