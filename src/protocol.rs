//! The typed event structures that the transaction rules read and change.
use vstd::prelude::*;

use crate::convert::{
    absent_as_given, absent_with_error, add_field_tree, entries_meta_tree, entry_keys,
    entry_values, field_parsed, index_shape, kept_children, leaf_meta_tree, leaf_tree,
    lemma_fields_tree_done, parse_field, reject, split_fields, value_has_diagnostics, FromValue,
    ToValue,
};
use crate::timestamp::Timestamp;
use crate::types::{
    first_key_index, lemma_first_key_index, meta_is_empty, str_eq, tree_is_empty, tree_is_sparse,
    Annotated, Meta, MetaTree, Object, Value,
};

verus! {

/// The kind of an event.
#[derive(Debug, Clone, Copy, PartialEq, Eq, Structural, Hash)]
pub enum EventType {
    Default,
    Error,
    Csp,
    Hpkp,
    ExpectCT,
    ExpectStaple,
    Transaction,
}

/// The identifier of a trace.
#[derive(Debug, Clone, PartialEq)]
pub struct TraceId(pub String);

/// The identifier of a span.
#[derive(Debug, Clone, PartialEq)]
pub struct SpanId(pub String);

/// Correlation data that links an event to a distributed trace.
#[derive(Debug, Clone, PartialEq)]
pub struct TraceContext {
    pub trace_id: Annotated<TraceId>,
    pub span_id: Annotated<SpanId>,
    pub op: Annotated<String>,
}

impl Default for TraceContext {
    fn default() -> (r: TraceContext)
        ensures
            r.trace_id.0 is None,
            r.span_id.0 is None,
            r.op.0 is None,
    {
        TraceContext {
            trace_id: Annotated::empty(),
            span_id: Annotated::empty(),
            op: Annotated::empty(),
        }
    }
}

/// A context entry: a trace context, or any other data.
#[derive(Debug, PartialEq)]
pub enum Context {
    Trace(Box<TraceContext>),
    Other(Object<Value>),
}

/// The value stored under a key of the contexts mapping.
#[derive(Debug, PartialEq)]
pub struct ContextInner(pub Context);

/// The contexts of an event, by name.
#[derive(Debug, PartialEq)]
pub struct Contexts(pub Object<ContextInner>);

/// A timed operation within a transaction.
#[derive(Debug, Clone, PartialEq)]
pub struct Span {
    pub timestamp: Annotated<Timestamp>,
    pub start_timestamp: Annotated<Timestamp>,
    pub op: Annotated<String>,
    pub span_id: Annotated<SpanId>,
    pub trace_id: Annotated<TraceId>,
}

impl Default for Span {
    fn default() -> (r: Span)
        ensures
            r.timestamp.0 is None,
            r.start_timestamp.0 is None,
            r.op.0 is None,
            r.span_id.0 is None,
            r.trace_id.0 is None,
    {
        Span {
            timestamp: Annotated::empty(),
            start_timestamp: Annotated::empty(),
            op: Annotated::empty(),
            span_id: Annotated::empty(),
            trace_id: Annotated::empty(),
        }
    }
}

/// An event as the pipeline receives it.
#[derive(Debug, PartialEq)]
pub struct Event {
    pub ty: Annotated<EventType>,
    pub transaction: Annotated<String>,
    pub timestamp: Annotated<Timestamp>,
    pub start_timestamp: Annotated<Timestamp>,
    pub contexts: Annotated<Contexts>,
    pub spans: Annotated<Vec<Annotated<Span>>>,
}

impl Default for Event {
    fn default() -> (r: Event)
        ensures
            r.ty.0 is None,
            r.transaction.0 is None,
            r.timestamp.0 is None,
            r.start_timestamp.0 is None,
            r.contexts.0 is None,
            r.spans.0 is None,
    {
        Event {
            ty: Annotated::empty(),
            transaction: Annotated::empty(),
            timestamp: Annotated::empty(),
            start_timestamp: Annotated::empty(),
            contexts: Annotated::empty(),
            spans: Annotated::empty(),
        }
    }
}

/// Whether field `a` carries diagnostics.
pub open spec fn field_diag<T: ToValue>(a: Annotated<T>) -> bool {
    T::has_diagnostics(a)
}

/// `t` is the diagnostics tree of field `a`.
pub open spec fn field_tree<T: ToValue>(a: Annotated<T>, t: MetaTree) -> bool {
    T::is_meta_tree_of(a, t)
}

/// `e` is field `a` serialized under `key`.
pub open spec fn field_serialized<T: ToValue>(
    a: Annotated<T>,
    key: Seq<char>,
    e: (String, Annotated<Value>),
) -> bool {
    e.0@ == key && T::serializes_to(a, e.1)
}

/// The name of an event type as the wire writes it.
pub open spec fn event_type_name(t: EventType) -> Seq<char> {
    match t {
        EventType::Default => "default"@,
        EventType::Error => "error"@,
        EventType::Csp => "csp"@,
        EventType::Hpkp => "hpkp"@,
        EventType::ExpectCT => "expectct"@,
        EventType::ExpectStaple => "expectstaple"@,
        EventType::Transaction => "transaction"@,
    }
}

/// The event type with the name, if there is one.
pub open spec fn event_type_named(s: Seq<char>) -> Option<EventType> {
    if s == "default"@ {
        Some(EventType::Default)
    } else if s == "error"@ {
        Some(EventType::Error)
    } else if s == "csp"@ {
        Some(EventType::Csp)
    } else if s == "hpkp"@ {
        Some(EventType::Hpkp)
    } else if s == "expectct"@ {
        Some(EventType::ExpectCT)
    } else if s == "expectstaple"@ {
        Some(EventType::ExpectStaple)
    } else if s == "transaction"@ {
        Some(EventType::Transaction)
    } else {
        None
    }
}

impl EventType {
    /// The event type with the name, if there is one.
    pub fn from_name(s: &str) -> (r: Option<EventType>)
        ensures
            r == event_type_named(s@),
    {
        if str_eq(s, "default") {
            Some(EventType::Default)
        } else if str_eq(s, "error") {
            Some(EventType::Error)
        } else if str_eq(s, "csp") {
            Some(EventType::Csp)
        } else if str_eq(s, "hpkp") {
            Some(EventType::Hpkp)
        } else if str_eq(s, "expectct") {
            Some(EventType::ExpectCT)
        } else if str_eq(s, "expectstaple") {
            Some(EventType::ExpectStaple)
        } else if str_eq(s, "transaction") {
            Some(EventType::Transaction)
        } else {
            None
        }
    }

    /// The name of the event type.
    pub fn name(&self) -> (r: String)
        ensures
            r@ == event_type_name(*self),
    {
        match self {
            EventType::Default => "default".to_owned(),
            EventType::Error => "error".to_owned(),
            EventType::Csp => "csp".to_owned(),
            EventType::Hpkp => "hpkp".to_owned(),
            EventType::ExpectCT => "expectct".to_owned(),
            EventType::ExpectStaple => "expectstaple".to_owned(),
            EventType::Transaction => "transaction".to_owned(),
        }
    }
}

impl FromValue for EventType {
    open spec fn accepts(v: Value) -> bool {
        v is String
    }

    open spec fn parses_to(value: Annotated<Value>, r: Annotated<Self>) -> bool {
        match value.0 {
            Some(Value::String(s)) => match event_type_named(s@) {
                Some(t) => r.0 == Some(t) && r.1 == value.1,
                None => absent_with_error(value, r, "expected an event type"@),
            },
            None | Some(Value::Null) => absent_as_given(value, r),
            _ => absent_with_error(value, r, "expected an event type"@),
        }
    }

    fn from_value(value: Annotated<Value>) -> (r: Annotated<Self>) {
        match value {
            Annotated(Some(Value::String(s)), meta) => match EventType::from_name(s.as_str()) {
                Some(t) => Annotated(Some(t), meta),
                None => reject(meta, "expected an event type"),
            },
            Annotated(Some(Value::Null), meta) => Annotated(None, meta),
            Annotated(None, meta) => Annotated(None, meta),
            Annotated(_, meta) => reject(meta, "expected an event type"),
        }
    }
}

impl ToValue for EventType {
    open spec fn serializes_to(value: Annotated<Self>, r: Annotated<Value>) -> bool {
        &&& r.1 == value.1
        &&& match value.0 {
            Some(t) => r.0 matches Some(Value::String(s)) && s@ == event_type_name(t),
            None => r.0 is None,
        }
    }

    open spec fn has_diagnostics(value: Annotated<Self>) -> bool {
        !meta_is_empty(value.1)
    }

    open spec fn is_meta_tree_of(value: Annotated<Self>, t: MetaTree) -> bool {
        leaf_meta_tree(value.1, t)
    }

    fn to_value(value: Annotated<Self>) -> (r: Annotated<Value>) {
        match value {
            Annotated(Some(t), meta) => Annotated(Some(Value::String(t.name())), meta),
            Annotated(None, meta) => Annotated(None, meta),
        }
    }

    fn extract_meta_tree(value: &Annotated<Self>) -> (r: MetaTree) {
        leaf_tree(&value.1)
    }
}

impl FromValue for TraceId {
    open spec fn accepts(v: Value) -> bool {
        v is String
    }

    open spec fn parses_to(value: Annotated<Value>, r: Annotated<Self>) -> bool {
        match value.0 {
            Some(Value::String(s)) => r.0 == Some(TraceId(s)) && r.1 == value.1,
            None | Some(Value::Null) => absent_as_given(value, r),
            _ => absent_with_error(value, r, "expected a string"@),
        }
    }

    fn from_value(value: Annotated<Value>) -> (r: Annotated<Self>) {
        match value {
            Annotated(Some(Value::String(s)), meta) => Annotated(Some(TraceId(s)), meta),
            Annotated(Some(Value::Null), meta) => Annotated(None, meta),
            Annotated(None, meta) => Annotated(None, meta),
            Annotated(_, meta) => reject(meta, "expected a string"),
        }
    }
}

impl ToValue for TraceId {
    open spec fn serializes_to(value: Annotated<Self>, r: Annotated<Value>) -> bool {
        &&& r.1 == value.1
        &&& match value.0 {
            Some(TraceId(s)) => r.0 == Some(Value::String(s)),
            None => r.0 is None,
        }
    }

    open spec fn has_diagnostics(value: Annotated<Self>) -> bool {
        !meta_is_empty(value.1)
    }

    open spec fn is_meta_tree_of(value: Annotated<Self>, t: MetaTree) -> bool {
        leaf_meta_tree(value.1, t)
    }

    fn to_value(value: Annotated<Self>) -> (r: Annotated<Value>) {
        match value {
            Annotated(Some(TraceId(s)), meta) => Annotated(Some(Value::String(s)), meta),
            Annotated(None, meta) => Annotated(None, meta),
        }
    }

    fn extract_meta_tree(value: &Annotated<Self>) -> (r: MetaTree) {
        leaf_tree(&value.1)
    }
}

impl FromValue for SpanId {
    open spec fn accepts(v: Value) -> bool {
        v is String
    }

    open spec fn parses_to(value: Annotated<Value>, r: Annotated<Self>) -> bool {
        match value.0 {
            Some(Value::String(s)) => r.0 == Some(SpanId(s)) && r.1 == value.1,
            None | Some(Value::Null) => absent_as_given(value, r),
            _ => absent_with_error(value, r, "expected a string"@),
        }
    }

    fn from_value(value: Annotated<Value>) -> (r: Annotated<Self>) {
        match value {
            Annotated(Some(Value::String(s)), meta) => Annotated(Some(SpanId(s)), meta),
            Annotated(Some(Value::Null), meta) => Annotated(None, meta),
            Annotated(None, meta) => Annotated(None, meta),
            Annotated(_, meta) => reject(meta, "expected a string"),
        }
    }
}

impl ToValue for SpanId {
    open spec fn serializes_to(value: Annotated<Self>, r: Annotated<Value>) -> bool {
        &&& r.1 == value.1
        &&& match value.0 {
            Some(SpanId(s)) => r.0 == Some(Value::String(s)),
            None => r.0 is None,
        }
    }

    open spec fn has_diagnostics(value: Annotated<Self>) -> bool {
        !meta_is_empty(value.1)
    }

    open spec fn is_meta_tree_of(value: Annotated<Self>, t: MetaTree) -> bool {
        leaf_meta_tree(value.1, t)
    }

    fn to_value(value: Annotated<Self>) -> (r: Annotated<Value>) {
        match value {
            Annotated(Some(SpanId(s)), meta) => Annotated(Some(Value::String(s)), meta),
            Annotated(None, meta) => Annotated(None, meta),
        }
    }

    fn extract_meta_tree(value: &Annotated<Self>) -> (r: MetaTree) {
        leaf_tree(&value.1)
    }
}

/// The keys of the fields of a trace context, in order.
pub open spec fn trace_context_names() -> Seq<Seq<char>> {
    seq!["trace_id"@, "span_id"@, "op"@]
}

/// Which fields of a trace context carry diagnostics.
pub open spec fn trace_context_diag(s: TraceContext) -> Seq<bool> {
    seq![field_diag::<TraceId>(s.trace_id), field_diag::<SpanId>(s.span_id), field_diag::<String>(s.op)]
}

/// `t` is the diagnostics tree of field `k` of a trace context.
pub open spec fn trace_context_field_tree(s: TraceContext, k: int, t: MetaTree) -> bool {
    if k == 0 {
        field_tree::<TraceId>(s.trace_id, t)
    } else if k == 1 {
        field_tree::<SpanId>(s.span_id, t)
    } else if k == 2 {
        field_tree::<String>(s.op, t)
    } else {
        false
    }
}

/// The fields of a trace context are what parsing makes of the mapping's entries.
pub open spec fn trace_context_fields_parsed(o: Object<Value>, s: TraceContext) -> bool {
    &&& field_parsed::<TraceId>(o, "trace_id"@, s.trace_id)
    &&& field_parsed::<SpanId>(o, "span_id"@, s.span_id)
    &&& field_parsed::<String>(o, "op"@, s.op)
}

/// The mapping holds the serialized fields of a trace context, in order.
pub open spec fn trace_context_fields_serialized(s: TraceContext, o: Object<Value>) -> bool {
    &&& o.entries@.len() == 4
    &&& field_serialized::<TraceId>(s.trace_id, "trace_id"@, o.entries@[0])
    &&& field_serialized::<SpanId>(s.span_id, "span_id"@, o.entries@[1])
    &&& field_serialized::<String>(s.op, "op"@, o.entries@[2])
    &&& o.entries@[3].0@ == "type"@
    &&& o.entries@[3].1.0 matches Some(Value::String(x)) && x@ == "trace"@
    &&& meta_is_empty(o.entries@[3].1.1)
}

/// `t` is the diagnostics tree of a trace context with diagnostics `meta`.
pub open spec fn trace_context_tree_rel(meta: Meta, s: TraceContext, t: MetaTree) -> bool {
    &&& t.meta@ == meta@
    &&& exists|idx: Seq<int>|
        index_shape(trace_context_diag(s), trace_context_names(), t.children@, idx) && forall|j: int|
            0 <= j < idx.len() ==> trace_context_field_tree(s, idx[j], #[trigger] t.children@[j].1)
}

/// The diagnostics tree of a trace context with diagnostics `meta`.
pub fn trace_context_meta_tree(meta: &Meta, s: &TraceContext) -> (r: MetaTree)
    ensures
        trace_context_tree_rel(*meta, *s, r),
        tree_is_sparse(r),
        tree_is_empty(r) <==> (meta_is_empty(*meta) && !exists|k: int| 0 <= k < 3 && #[trigger] trace_context_diag(*s)[k]),
{
    let mut tree = MetaTree { meta: meta.duplicate(), children: Vec::new() };
    let ghost diag = trace_context_diag(*s);
    let ghost names = trace_context_names();
    let ghost rel = |k: int, t: MetaTree| trace_context_field_tree(*s, k, t);
    let ghost idx: Seq<int> = Seq::empty();
    proof {
        reveal_strlit("trace_id");
        reveal_strlit("span_id");
        reveal_strlit("op");
        assert(diag.take(0) =~= Seq::<bool>::empty());
    }
    let Ghost(idx) = add_field_tree(
        &mut tree,
        "trace_id",
        &s.trace_id,
        Ghost(diag),
        Ghost(names),
        Ghost(rel),
        Ghost(0int),
        Ghost(idx),
    );
    let Ghost(idx) = add_field_tree(
        &mut tree,
        "span_id",
        &s.span_id,
        Ghost(diag),
        Ghost(names),
        Ghost(rel),
        Ghost(1int),
        Ghost(idx),
    );
    let Ghost(idx) = add_field_tree(
        &mut tree,
        "op",
        &s.op,
        Ghost(diag),
        Ghost(names),
        Ghost(rel),
        Ghost(2int),
        Ghost(idx),
    );
    proof {
        lemma_fields_tree_done(diag, names, tree.children@, idx);
    }
    tree
}

impl FromValue for TraceContext {
    open spec fn accepts(v: Value) -> bool {
        v is Object
    }

    open spec fn parses_to(value: Annotated<Value>, r: Annotated<Self>) -> bool {
        match value.0 {
            Some(Value::Object(o)) => r.1 == value.1 && r.0 is Some && trace_context_fields_parsed(o, r.0->0),
            None | Some(Value::Null) => absent_as_given(value, r),
            _ => absent_with_error(value, r, "expected a trace context"@),
        }
    }

    fn from_value(value: Annotated<Value>) -> (r: Annotated<Self>) {
        match value {
            Annotated(Some(Value::Object(o)), meta) => {
                let ghost obj = o;
                let mut names: Vec<&str> = Vec::new();
                names.push("trace_id");
                names.push("span_id");
                names.push("op");
                proof {
                    reveal_strlit("trace_id");
                    reveal_strlit("span_id");
                    reveal_strlit("op");
                    assert(names@[0] == "trace_id");
                    assert(names@[1] == "span_id");
                    assert(names@[2] == "op");
                    assert forall|a: int, b: int| 0 <= a < b < 3 implies names@[a]@ != names@[b]@ by {
                        if a == 0 && b == 1 {
                            assert(names@[0]@.len() != names@[1]@.len());
                        } else if a == 0 && b == 2 {
                            assert(names@[0]@.len() != names@[2]@.len());
                        } else if a == 1 && b == 2 {
                            assert(names@[1]@.len() != names@[2]@.len());
                        }
                    }
                }
                let mut fields = split_fields(o, &names);
                let v2 = fields.pop().unwrap();
                let v1 = fields.pop().unwrap();
                let v0 = fields.pop().unwrap();
                let s = TraceContext {
                    trace_id: parse_field::<TraceId>(v0, Ghost(obj), Ghost("trace_id"@)),
                    span_id: parse_field::<SpanId>(v1, Ghost(obj), Ghost("span_id"@)),
                    op: parse_field::<String>(v2, Ghost(obj), Ghost("op"@)),
                };
                Annotated(Some(s), meta)
            },
            Annotated(Some(Value::Null), meta) => Annotated(None, meta),
            Annotated(None, meta) => Annotated(None, meta),
            Annotated(_, meta) => reject(meta, "expected a trace context"),
        }
    }
}

impl ToValue for TraceContext {
    open spec fn serializes_to(value: Annotated<Self>, r: Annotated<Value>) -> bool {
        &&& r.1 == value.1
        &&& match value.0 {
            Some(s) => r.0 matches Some(Value::Object(o)) && trace_context_fields_serialized(s, o),
            None => r.0 is None,
        }
    }

    open spec fn has_diagnostics(value: Annotated<Self>) -> bool {
        ||| !meta_is_empty(value.1)
        ||| (value.0 matches Some(s) && exists|k: int| 0 <= k < 3 && #[trigger] trace_context_diag(s)[k])
    }

    open spec fn is_meta_tree_of(value: Annotated<Self>, t: MetaTree) -> bool {
        match value.0 {
            Some(s) => trace_context_tree_rel(value.1, s, t),
            None => leaf_meta_tree(value.1, t),
        }
    }

    fn to_value(value: Annotated<Self>) -> (r: Annotated<Value>) {
        match value {
            Annotated(Some(s), meta) => {
                let mut entries: Vec<(String, Annotated<Value>)> = Vec::new();
                entries.push(("trace_id".to_owned(), TraceId::to_value(s.trace_id)));
                entries.push(("span_id".to_owned(), SpanId::to_value(s.span_id)));
                entries.push(("op".to_owned(), String::to_value(s.op)));
                entries.push(("type".to_owned(), Annotated::new(Value::String("trace".to_owned()))));
                Annotated(Some(Value::Object(Object { entries })), meta)
            },
            Annotated(None, meta) => Annotated(None, meta),
        }
    }

    fn extract_meta_tree(value: &Annotated<Self>) -> (r: MetaTree) {
        match &value.0 {
            Some(s) => trace_context_meta_tree(&value.1, s),
            None => leaf_tree(&value.1),
        }
    }
}

/// The keys of the fields of a span, in order.
pub open spec fn span_names() -> Seq<Seq<char>> {
    seq!["timestamp"@, "start_timestamp"@, "op"@, "span_id"@, "trace_id"@]
}

/// Which fields of a span carry diagnostics.
pub open spec fn span_diag(s: Span) -> Seq<bool> {
    seq![field_diag::<Timestamp>(s.timestamp), field_diag::<Timestamp>(s.start_timestamp), field_diag::<String>(s.op), field_diag::<SpanId>(s.span_id), field_diag::<TraceId>(s.trace_id)]
}

/// `t` is the diagnostics tree of field `k` of a span.
pub open spec fn span_field_tree(s: Span, k: int, t: MetaTree) -> bool {
    if k == 0 {
        field_tree::<Timestamp>(s.timestamp, t)
    } else if k == 1 {
        field_tree::<Timestamp>(s.start_timestamp, t)
    } else if k == 2 {
        field_tree::<String>(s.op, t)
    } else if k == 3 {
        field_tree::<SpanId>(s.span_id, t)
    } else if k == 4 {
        field_tree::<TraceId>(s.trace_id, t)
    } else {
        false
    }
}

/// The fields of a span are what parsing makes of the mapping's entries.
pub open spec fn span_fields_parsed(o: Object<Value>, s: Span) -> bool {
    &&& field_parsed::<Timestamp>(o, "timestamp"@, s.timestamp)
    &&& field_parsed::<Timestamp>(o, "start_timestamp"@, s.start_timestamp)
    &&& field_parsed::<String>(o, "op"@, s.op)
    &&& field_parsed::<SpanId>(o, "span_id"@, s.span_id)
    &&& field_parsed::<TraceId>(o, "trace_id"@, s.trace_id)
}

/// The mapping holds the serialized fields of a span, in order.
pub open spec fn span_fields_serialized(s: Span, o: Object<Value>) -> bool {
    &&& o.entries@.len() == 5
    &&& field_serialized::<Timestamp>(s.timestamp, "timestamp"@, o.entries@[0])
    &&& field_serialized::<Timestamp>(s.start_timestamp, "start_timestamp"@, o.entries@[1])
    &&& field_serialized::<String>(s.op, "op"@, o.entries@[2])
    &&& field_serialized::<SpanId>(s.span_id, "span_id"@, o.entries@[3])
    &&& field_serialized::<TraceId>(s.trace_id, "trace_id"@, o.entries@[4])
}

/// `t` is the diagnostics tree of a span with diagnostics `meta`.
pub open spec fn span_tree_rel(meta: Meta, s: Span, t: MetaTree) -> bool {
    &&& t.meta@ == meta@
    &&& exists|idx: Seq<int>|
        index_shape(span_diag(s), span_names(), t.children@, idx) && forall|j: int|
            0 <= j < idx.len() ==> span_field_tree(s, idx[j], #[trigger] t.children@[j].1)
}

/// The diagnostics tree of a span with diagnostics `meta`.
pub fn span_meta_tree(meta: &Meta, s: &Span) -> (r: MetaTree)
    ensures
        span_tree_rel(*meta, *s, r),
        tree_is_sparse(r),
        tree_is_empty(r) <==> (meta_is_empty(*meta) && !exists|k: int| 0 <= k < 5 && #[trigger] span_diag(*s)[k]),
{
    let mut tree = MetaTree { meta: meta.duplicate(), children: Vec::new() };
    let ghost diag = span_diag(*s);
    let ghost names = span_names();
    let ghost rel = |k: int, t: MetaTree| span_field_tree(*s, k, t);
    let ghost idx: Seq<int> = Seq::empty();
    proof {
        reveal_strlit("timestamp");
        reveal_strlit("start_timestamp");
        reveal_strlit("op");
        reveal_strlit("span_id");
        reveal_strlit("trace_id");
        assert(diag.take(0) =~= Seq::<bool>::empty());
    }
    let Ghost(idx) = add_field_tree(
        &mut tree,
        "timestamp",
        &s.timestamp,
        Ghost(diag),
        Ghost(names),
        Ghost(rel),
        Ghost(0int),
        Ghost(idx),
    );
    let Ghost(idx) = add_field_tree(
        &mut tree,
        "start_timestamp",
        &s.start_timestamp,
        Ghost(diag),
        Ghost(names),
        Ghost(rel),
        Ghost(1int),
        Ghost(idx),
    );
    let Ghost(idx) = add_field_tree(
        &mut tree,
        "op",
        &s.op,
        Ghost(diag),
        Ghost(names),
        Ghost(rel),
        Ghost(2int),
        Ghost(idx),
    );
    let Ghost(idx) = add_field_tree(
        &mut tree,
        "span_id",
        &s.span_id,
        Ghost(diag),
        Ghost(names),
        Ghost(rel),
        Ghost(3int),
        Ghost(idx),
    );
    let Ghost(idx) = add_field_tree(
        &mut tree,
        "trace_id",
        &s.trace_id,
        Ghost(diag),
        Ghost(names),
        Ghost(rel),
        Ghost(4int),
        Ghost(idx),
    );
    proof {
        lemma_fields_tree_done(diag, names, tree.children@, idx);
    }
    tree
}

impl FromValue for Span {
    open spec fn accepts(v: Value) -> bool {
        v is Object
    }

    open spec fn parses_to(value: Annotated<Value>, r: Annotated<Self>) -> bool {
        match value.0 {
            Some(Value::Object(o)) => r.1 == value.1 && r.0 is Some && span_fields_parsed(o, r.0->0),
            None | Some(Value::Null) => absent_as_given(value, r),
            _ => absent_with_error(value, r, "expected a span"@),
        }
    }

    fn from_value(value: Annotated<Value>) -> (r: Annotated<Self>) {
        match value {
            Annotated(Some(Value::Object(o)), meta) => {
                let ghost obj = o;
                let mut names: Vec<&str> = Vec::new();
                names.push("timestamp");
                names.push("start_timestamp");
                names.push("op");
                names.push("span_id");
                names.push("trace_id");
                proof {
                    reveal_strlit("timestamp");
                    reveal_strlit("start_timestamp");
                    reveal_strlit("op");
                    reveal_strlit("span_id");
                    reveal_strlit("trace_id");
                    assert(names@[0] == "timestamp");
                    assert(names@[1] == "start_timestamp");
                    assert(names@[2] == "op");
                    assert(names@[3] == "span_id");
                    assert(names@[4] == "trace_id");
                    assert forall|a: int, b: int| 0 <= a < b < 5 implies names@[a]@ != names@[b]@ by {
                        if a == 0 && b == 1 {
                            assert(names@[0]@.len() != names@[1]@.len());
                        } else if a == 0 && b == 2 {
                            assert(names@[0]@.len() != names@[2]@.len());
                        } else if a == 0 && b == 3 {
                            assert(names@[0]@.len() != names@[3]@.len());
                        } else if a == 0 && b == 4 {
                            assert(names@[0]@.len() != names@[4]@.len());
                        } else if a == 1 && b == 2 {
                            assert(names@[1]@.len() != names@[2]@.len());
                        } else if a == 1 && b == 3 {
                            assert(names@[1]@.len() != names@[3]@.len());
                        } else if a == 1 && b == 4 {
                            assert(names@[1]@.len() != names@[4]@.len());
                        } else if a == 2 && b == 3 {
                            assert(names@[2]@.len() != names@[3]@.len());
                        } else if a == 2 && b == 4 {
                            assert(names@[2]@.len() != names@[4]@.len());
                        } else if a == 3 && b == 4 {
                            assert(names@[3]@.len() != names@[4]@.len());
                        }
                    }
                }
                let mut fields = split_fields(o, &names);
                let v4 = fields.pop().unwrap();
                let v3 = fields.pop().unwrap();
                let v2 = fields.pop().unwrap();
                let v1 = fields.pop().unwrap();
                let v0 = fields.pop().unwrap();
                let s = Span {
                    timestamp: parse_field::<Timestamp>(v0, Ghost(obj), Ghost("timestamp"@)),
                    start_timestamp: parse_field::<Timestamp>(v1, Ghost(obj), Ghost("start_timestamp"@)),
                    op: parse_field::<String>(v2, Ghost(obj), Ghost("op"@)),
                    span_id: parse_field::<SpanId>(v3, Ghost(obj), Ghost("span_id"@)),
                    trace_id: parse_field::<TraceId>(v4, Ghost(obj), Ghost("trace_id"@)),
                };
                Annotated(Some(s), meta)
            },
            Annotated(Some(Value::Null), meta) => Annotated(None, meta),
            Annotated(None, meta) => Annotated(None, meta),
            Annotated(_, meta) => reject(meta, "expected a span"),
        }
    }
}

impl ToValue for Span {
    open spec fn serializes_to(value: Annotated<Self>, r: Annotated<Value>) -> bool {
        &&& r.1 == value.1
        &&& match value.0 {
            Some(s) => r.0 matches Some(Value::Object(o)) && span_fields_serialized(s, o),
            None => r.0 is None,
        }
    }

    open spec fn has_diagnostics(value: Annotated<Self>) -> bool {
        ||| !meta_is_empty(value.1)
        ||| (value.0 matches Some(s) && exists|k: int| 0 <= k < 5 && #[trigger] span_diag(s)[k])
    }

    open spec fn is_meta_tree_of(value: Annotated<Self>, t: MetaTree) -> bool {
        match value.0 {
            Some(s) => span_tree_rel(value.1, s, t),
            None => leaf_meta_tree(value.1, t),
        }
    }

    fn to_value(value: Annotated<Self>) -> (r: Annotated<Value>) {
        match value {
            Annotated(Some(s), meta) => {
                let mut entries: Vec<(String, Annotated<Value>)> = Vec::new();
                entries.push(("timestamp".to_owned(), Timestamp::to_value(s.timestamp)));
                entries.push(("start_timestamp".to_owned(), Timestamp::to_value(s.start_timestamp)));
                entries.push(("op".to_owned(), String::to_value(s.op)));
                entries.push(("span_id".to_owned(), SpanId::to_value(s.span_id)));
                entries.push(("trace_id".to_owned(), TraceId::to_value(s.trace_id)));
                Annotated(Some(Value::Object(Object { entries })), meta)
            },
            Annotated(None, meta) => Annotated(None, meta),
        }
    }

    fn extract_meta_tree(value: &Annotated<Self>) -> (r: MetaTree) {
        match &value.0 {
            Some(s) => span_meta_tree(&value.1, s),
            None => leaf_tree(&value.1),
        }
    }
}

/// The keys of the fields of an event, in order.
pub open spec fn event_names() -> Seq<Seq<char>> {
    seq!["type"@, "transaction"@, "timestamp"@, "start_timestamp"@, "contexts"@, "spans"@]
}

/// Which fields of an event carry diagnostics.
pub open spec fn event_diag(s: Event) -> Seq<bool> {
    seq![field_diag::<EventType>(s.ty), field_diag::<String>(s.transaction), field_diag::<Timestamp>(s.timestamp), field_diag::<Timestamp>(s.start_timestamp), field_diag::<Contexts>(s.contexts), field_diag::<Vec<Annotated<Span>>>(s.spans)]
}

/// `t` is the diagnostics tree of field `k` of an event.
pub open spec fn event_field_tree(s: Event, k: int, t: MetaTree) -> bool {
    if k == 0 {
        field_tree::<EventType>(s.ty, t)
    } else if k == 1 {
        field_tree::<String>(s.transaction, t)
    } else if k == 2 {
        field_tree::<Timestamp>(s.timestamp, t)
    } else if k == 3 {
        field_tree::<Timestamp>(s.start_timestamp, t)
    } else if k == 4 {
        field_tree::<Contexts>(s.contexts, t)
    } else if k == 5 {
        field_tree::<Vec<Annotated<Span>>>(s.spans, t)
    } else {
        false
    }
}

/// The fields of an event are what parsing makes of the mapping's entries.
pub open spec fn event_fields_parsed(o: Object<Value>, s: Event) -> bool {
    &&& field_parsed::<EventType>(o, "type"@, s.ty)
    &&& field_parsed::<String>(o, "transaction"@, s.transaction)
    &&& field_parsed::<Timestamp>(o, "timestamp"@, s.timestamp)
    &&& field_parsed::<Timestamp>(o, "start_timestamp"@, s.start_timestamp)
    &&& field_parsed::<Contexts>(o, "contexts"@, s.contexts)
    &&& field_parsed::<Vec<Annotated<Span>>>(o, "spans"@, s.spans)
}

/// The mapping holds the serialized fields of an event, in order.
pub open spec fn event_fields_serialized(s: Event, o: Object<Value>) -> bool {
    &&& o.entries@.len() == 6
    &&& field_serialized::<EventType>(s.ty, "type"@, o.entries@[0])
    &&& field_serialized::<String>(s.transaction, "transaction"@, o.entries@[1])
    &&& field_serialized::<Timestamp>(s.timestamp, "timestamp"@, o.entries@[2])
    &&& field_serialized::<Timestamp>(s.start_timestamp, "start_timestamp"@, o.entries@[3])
    &&& field_serialized::<Contexts>(s.contexts, "contexts"@, o.entries@[4])
    &&& field_serialized::<Vec<Annotated<Span>>>(s.spans, "spans"@, o.entries@[5])
}

/// `t` is the diagnostics tree of an event with diagnostics `meta`.
pub open spec fn event_tree_rel(meta: Meta, s: Event, t: MetaTree) -> bool {
    &&& t.meta@ == meta@
    &&& exists|idx: Seq<int>|
        index_shape(event_diag(s), event_names(), t.children@, idx) && forall|j: int|
            0 <= j < idx.len() ==> event_field_tree(s, idx[j], #[trigger] t.children@[j].1)
}

/// The diagnostics tree of an event with diagnostics `meta`.
pub fn event_meta_tree(meta: &Meta, s: &Event) -> (r: MetaTree)
    ensures
        event_tree_rel(*meta, *s, r),
        tree_is_sparse(r),
        tree_is_empty(r) <==> (meta_is_empty(*meta) && !exists|k: int| 0 <= k < 6 && #[trigger] event_diag(*s)[k]),
{
    let mut tree = MetaTree { meta: meta.duplicate(), children: Vec::new() };
    let ghost diag = event_diag(*s);
    let ghost names = event_names();
    let ghost rel = |k: int, t: MetaTree| event_field_tree(*s, k, t);
    let ghost idx: Seq<int> = Seq::empty();
    proof {
        reveal_strlit("type");
        reveal_strlit("transaction");
        reveal_strlit("timestamp");
        reveal_strlit("start_timestamp");
        reveal_strlit("contexts");
        reveal_strlit("spans");
        assert(diag.take(0) =~= Seq::<bool>::empty());
    }
    let Ghost(idx) = add_field_tree(
        &mut tree,
        "type",
        &s.ty,
        Ghost(diag),
        Ghost(names),
        Ghost(rel),
        Ghost(0int),
        Ghost(idx),
    );
    let Ghost(idx) = add_field_tree(
        &mut tree,
        "transaction",
        &s.transaction,
        Ghost(diag),
        Ghost(names),
        Ghost(rel),
        Ghost(1int),
        Ghost(idx),
    );
    let Ghost(idx) = add_field_tree(
        &mut tree,
        "timestamp",
        &s.timestamp,
        Ghost(diag),
        Ghost(names),
        Ghost(rel),
        Ghost(2int),
        Ghost(idx),
    );
    let Ghost(idx) = add_field_tree(
        &mut tree,
        "start_timestamp",
        &s.start_timestamp,
        Ghost(diag),
        Ghost(names),
        Ghost(rel),
        Ghost(3int),
        Ghost(idx),
    );
    let Ghost(idx) = add_field_tree(
        &mut tree,
        "contexts",
        &s.contexts,
        Ghost(diag),
        Ghost(names),
        Ghost(rel),
        Ghost(4int),
        Ghost(idx),
    );
    let Ghost(idx) = add_field_tree(
        &mut tree,
        "spans",
        &s.spans,
        Ghost(diag),
        Ghost(names),
        Ghost(rel),
        Ghost(5int),
        Ghost(idx),
    );
    proof {
        lemma_fields_tree_done(diag, names, tree.children@, idx);
    }
    tree
}

impl FromValue for Event {
    open spec fn accepts(v: Value) -> bool {
        v is Object
    }

    open spec fn parses_to(value: Annotated<Value>, r: Annotated<Self>) -> bool {
        match value.0 {
            Some(Value::Object(o)) => r.1 == value.1 && r.0 is Some && event_fields_parsed(o, r.0->0),
            None | Some(Value::Null) => absent_as_given(value, r),
            _ => absent_with_error(value, r, "expected an event"@),
        }
    }

    fn from_value(value: Annotated<Value>) -> (r: Annotated<Self>) {
        match value {
            Annotated(Some(Value::Object(o)), meta) => {
                let ghost obj = o;
                let mut names: Vec<&str> = Vec::new();
                names.push("type");
                names.push("transaction");
                names.push("timestamp");
                names.push("start_timestamp");
                names.push("contexts");
                names.push("spans");
                proof {
                    reveal_strlit("type");
                    reveal_strlit("transaction");
                    reveal_strlit("timestamp");
                    reveal_strlit("start_timestamp");
                    reveal_strlit("contexts");
                    reveal_strlit("spans");
                    assert(names@[0] == "type");
                    assert(names@[1] == "transaction");
                    assert(names@[2] == "timestamp");
                    assert(names@[3] == "start_timestamp");
                    assert(names@[4] == "contexts");
                    assert(names@[5] == "spans");
                    assert forall|a: int, b: int| 0 <= a < b < 6 implies names@[a]@ != names@[b]@ by {
                        if a == 0 && b == 1 {
                            assert(names@[0]@.len() != names@[1]@.len());
                        } else if a == 0 && b == 2 {
                            assert(names@[0]@.len() != names@[2]@.len());
                        } else if a == 0 && b == 3 {
                            assert(names@[0]@.len() != names@[3]@.len());
                        } else if a == 0 && b == 4 {
                            assert(names@[0]@.len() != names@[4]@.len());
                        } else if a == 0 && b == 5 {
                            assert(names@[0]@.len() != names@[5]@.len());
                        } else if a == 1 && b == 2 {
                            assert(names@[1]@.len() != names@[2]@.len());
                        } else if a == 1 && b == 3 {
                            assert(names@[1]@.len() != names@[3]@.len());
                        } else if a == 1 && b == 4 {
                            assert(names@[1]@.len() != names@[4]@.len());
                        } else if a == 1 && b == 5 {
                            assert(names@[1]@.len() != names@[5]@.len());
                        } else if a == 2 && b == 3 {
                            assert(names@[2]@.len() != names@[3]@.len());
                        } else if a == 2 && b == 4 {
                            assert(names@[2]@.len() != names@[4]@.len());
                        } else if a == 2 && b == 5 {
                            assert(names@[2]@.len() != names@[5]@.len());
                        } else if a == 3 && b == 4 {
                            assert(names@[3]@.len() != names@[4]@.len());
                        } else if a == 3 && b == 5 {
                            assert(names@[3]@.len() != names@[5]@.len());
                        } else if a == 4 && b == 5 {
                            assert(names@[4]@.len() != names@[5]@.len());
                        }
                    }
                }
                let mut fields = split_fields(o, &names);
                let v5 = fields.pop().unwrap();
                let v4 = fields.pop().unwrap();
                let v3 = fields.pop().unwrap();
                let v2 = fields.pop().unwrap();
                let v1 = fields.pop().unwrap();
                let v0 = fields.pop().unwrap();
                let s = Event {
                    ty: parse_field::<EventType>(v0, Ghost(obj), Ghost("type"@)),
                    transaction: parse_field::<String>(v1, Ghost(obj), Ghost("transaction"@)),
                    timestamp: parse_field::<Timestamp>(v2, Ghost(obj), Ghost("timestamp"@)),
                    start_timestamp: parse_field::<Timestamp>(v3, Ghost(obj), Ghost("start_timestamp"@)),
                    contexts: parse_field::<Contexts>(v4, Ghost(obj), Ghost("contexts"@)),
                    spans: parse_field::<Vec<Annotated<Span>>>(v5, Ghost(obj), Ghost("spans"@)),
                };
                Annotated(Some(s), meta)
            },
            Annotated(Some(Value::Null), meta) => Annotated(None, meta),
            Annotated(None, meta) => Annotated(None, meta),
            Annotated(_, meta) => reject(meta, "expected an event"),
        }
    }
}

impl ToValue for Event {
    open spec fn serializes_to(value: Annotated<Self>, r: Annotated<Value>) -> bool {
        &&& r.1 == value.1
        &&& match value.0 {
            Some(s) => r.0 matches Some(Value::Object(o)) && event_fields_serialized(s, o),
            None => r.0 is None,
        }
    }

    open spec fn has_diagnostics(value: Annotated<Self>) -> bool {
        ||| !meta_is_empty(value.1)
        ||| (value.0 matches Some(s) && exists|k: int| 0 <= k < 6 && #[trigger] event_diag(s)[k])
    }

    open spec fn is_meta_tree_of(value: Annotated<Self>, t: MetaTree) -> bool {
        match value.0 {
            Some(s) => event_tree_rel(value.1, s, t),
            None => leaf_meta_tree(value.1, t),
        }
    }

    fn to_value(value: Annotated<Self>) -> (r: Annotated<Value>) {
        match value {
            Annotated(Some(s), meta) => {
                let mut entries: Vec<(String, Annotated<Value>)> = Vec::new();
                entries.push(("type".to_owned(), EventType::to_value(s.ty)));
                entries.push(("transaction".to_owned(), String::to_value(s.transaction)));
                entries.push(("timestamp".to_owned(), Timestamp::to_value(s.timestamp)));
                entries.push(("start_timestamp".to_owned(), Timestamp::to_value(s.start_timestamp)));
                entries.push(("contexts".to_owned(), Contexts::to_value(s.contexts)));
                entries.push(("spans".to_owned(), Vec::<Annotated<Span>>::to_value(s.spans)));
                Annotated(Some(Value::Object(Object { entries })), meta)
            },
            Annotated(None, meta) => Annotated(None, meta),
        }
    }

    fn extract_meta_tree(value: &Annotated<Self>) -> (r: MetaTree) {
        match &value.0 {
            Some(s) => event_meta_tree(&value.1, s),
            None => leaf_tree(&value.1),
        }
    }
}


/// Whether a mapping describes a trace context: its "type" entry holds the string "trace".
pub open spec fn is_trace_object(o: Object<Value>) -> bool {
    match first_key_index(o, "type"@) {
        Some(i) => o.entries@[i].1.0 matches Some(Value::String(s)) && s@ == "trace"@,
        None => false,
    }
}

fn object_is_trace(o: &Object<Value>) -> (r: bool)
    ensures
        r == is_trace_object(*o),
{
    match o.position("type") {
        Some(i) => {
            proof {
                lemma_first_key_index(*o, "type"@, i as int);
            }
            match &o.entries[i].1.0 {
                Some(Value::String(s)) => str_eq(s.as_str(), "trace"),
                _ => false,
            }
        },
        None => false,
    }
}

impl FromValue for ContextInner {
    open spec fn accepts(v: Value) -> bool {
        v is Object
    }

    open spec fn parses_to(value: Annotated<Value>, r: Annotated<Self>) -> bool {
        match value.0 {
            Some(Value::Object(o)) => {
                &&& r.1 == value.1
                &&& r.0 is Some
                &&& if is_trace_object(o) {
                    (r.0->0).0 is Trace && trace_context_fields_parsed(o, *((r.0->0).0->Trace_0))
                } else {
                    (r.0->0).0 == Context::Other(o)
                }
            },
            None | Some(Value::Null) => absent_as_given(value, r),
            _ => absent_with_error(value, r, "expected a context"@),
        }
    }

    fn from_value(value: Annotated<Value>) -> (r: Annotated<Self>) {
        match value {
            Annotated(Some(Value::Object(o)), meta) => {
                if object_is_trace(&o) {
                    match TraceContext::from_value(Annotated(Some(Value::Object(o)), meta)) {
                        Annotated(Some(tc), meta) => Annotated(
                            Some(ContextInner(Context::Trace(Box::new(tc)))),
                            meta,
                        ),
                        Annotated(None, meta) => Annotated(None, meta),
                    }
                } else {
                    Annotated(Some(ContextInner(Context::Other(o))), meta)
                }
            },
            Annotated(Some(Value::Null), meta) => Annotated(None, meta),
            Annotated(None, meta) => Annotated(None, meta),
            Annotated(_, meta) => reject(meta, "expected a context"),
        }
    }
}

impl ToValue for ContextInner {
    open spec fn serializes_to(value: Annotated<Self>, r: Annotated<Value>) -> bool {
        &&& r.1 == value.1
        &&& match value.0 {
            Some(ContextInner(Context::Trace(tc))) => r.0 matches Some(Value::Object(o))
                && trace_context_fields_serialized(*tc, o),
            Some(ContextInner(Context::Other(o))) => r.0 == Some(Value::Object(o)),
            None => r.0 is None,
        }
    }

    open spec fn has_diagnostics(value: Annotated<Self>) -> bool {
        ||| !meta_is_empty(value.1)
        ||| match value.0 {
            Some(ContextInner(Context::Trace(tc))) => exists|k: int|
                0 <= k < 3 && #[trigger] trace_context_diag(*tc)[k],
            Some(ContextInner(Context::Other(o))) => exists|i: int|
                0 <= i < o.entries@.len() && value_has_diagnostics(#[trigger] o.entries@[i].1),
            None => false,
        }
    }

    open spec fn is_meta_tree_of(value: Annotated<Self>, t: MetaTree) -> bool {
        match value.0 {
            Some(ContextInner(Context::Trace(tc))) => trace_context_tree_rel(value.1, *tc, t),
            Some(ContextInner(Context::Other(o))) => t.meta@ == value.1@ && kept_children::<Value>(
                entry_values(o),
                entry_keys(o),
                t.children@,
            ),
            None => leaf_meta_tree(value.1, t),
        }
    }

    fn to_value(value: Annotated<Self>) -> (r: Annotated<Value>) {
        match value {
            Annotated(Some(ContextInner(Context::Trace(tc))), meta) => TraceContext::to_value(
                Annotated(Some(*tc), meta),
            ),
            Annotated(Some(ContextInner(Context::Other(o))), meta) => Annotated(
                Some(Value::Object(o)),
                meta,
            ),
            Annotated(None, meta) => Annotated(None, meta),
        }
    }

    fn extract_meta_tree(value: &Annotated<Self>) -> (r: MetaTree) {
        match &value.0 {
            Some(ContextInner(Context::Trace(tc))) => trace_context_meta_tree(&value.1, &**tc),
            Some(ContextInner(Context::Other(o))) => entries_meta_tree(&value.1, o),
            None => leaf_tree(&value.1),
        }
    }
}

impl FromValue for Contexts {
    open spec fn accepts(v: Value) -> bool {
        v is Object
    }

    open spec fn parses_to(value: Annotated<Value>, r: Annotated<Self>) -> bool {
        match value.0 {
            Some(Value::Object(o)) => {
                &&& r.1 == value.1
                &&& r.0 is Some
                &&& (r.0->0).0.entries@.len() == o.entries@.len()
                &&& forall|i: int|
                    0 <= i < o.entries@.len() ==> (#[trigger] (r.0->0).0.entries@[i]).0 == o.entries@[i].0
                        && ContextInner::parses_to(o.entries@[i].1, (r.0->0).0.entries@[i].1)
            },
            None | Some(Value::Null) => absent_as_given(value, r),
            _ => absent_with_error(value, r, "expected object"@),
        }
    }

    fn from_value(value: Annotated<Value>) -> (r: Annotated<Self>) {
        match Object::<ContextInner>::from_value(value) {
            Annotated(Some(c), meta) => Annotated(Some(Contexts(c)), meta),
            Annotated(None, meta) => Annotated(None, meta),
        }
    }
}

impl ToValue for Contexts {
    open spec fn serializes_to(value: Annotated<Self>, r: Annotated<Value>) -> bool {
        &&& r.1 == value.1
        &&& match value.0 {
            Some(Contexts(c)) => {
                &&& r.0 matches Some(Value::Object(o))
                &&& r.0->0->Object_0.entries@.len() == c.entries@.len()
                &&& forall|i: int|
                    0 <= i < c.entries@.len() ==> (#[trigger] r.0->0->Object_0.entries@[i]).0
                        == c.entries@[i].0 && ContextInner::serializes_to(
                        c.entries@[i].1,
                        r.0->0->Object_0.entries@[i].1,
                    )
            },
            None => r.0 is None,
        }
    }

    open spec fn has_diagnostics(value: Annotated<Self>) -> bool {
        ||| !meta_is_empty(value.1)
        ||| (value.0 matches Some(Contexts(c)) && exists|i: int|
            0 <= i < c.entries@.len() && ContextInner::has_diagnostics(#[trigger] c.entries@[i].1))
    }

    open spec fn is_meta_tree_of(value: Annotated<Self>, t: MetaTree) -> bool {
        match value.0 {
            Some(Contexts(c)) => t.meta@ == value.1@ && kept_children::<ContextInner>(
                entry_values(c),
                entry_keys(c),
                t.children@,
            ),
            None => leaf_meta_tree(value.1, t),
        }
    }

    fn to_value(value: Annotated<Self>) -> (r: Annotated<Value>) {
        match value {
            Annotated(Some(Contexts(c)), meta) => Object::<ContextInner>::to_value(
                Annotated(Some(c), meta),
            ),
            Annotated(None, meta) => Annotated(None, meta),
        }
    }

    fn extract_meta_tree(value: &Annotated<Self>) -> (r: MetaTree) {
        match &value.0 {
            Some(c) => entries_meta_tree(&value.1, &c.0),
            None => leaf_tree(&value.1),
        }
    }
}

} // verus!
