//! Field schemas and the path-tracking state of a processing walk.
use vstd::prelude::*;

use crate::convert::{entry_keys, entry_values, reversed};
use crate::ids::Uuid;
use crate::protocol::{Event, Span};
use crate::timestamp::Timestamp;
use crate::types::{decimal, index_key, Annotated, Float, Meta, Object, Value};

verus! {

/// Why processing gave up on an event: the caller must discard it.
#[derive(Debug, Clone, Copy, PartialEq, Eq)]
pub enum ProcessingAction {
    /// The event breaks a rule of transaction events; the text gives the rule.
    InvalidTransaction(&'static str),
}

/// The outcome of a processing step.
pub type ProcessingResult = Result<(), ProcessingAction>;

/// The maximum size of a field.
#[derive(Debug, Clone, Copy, PartialEq, Eq, Structural, Hash)]
pub enum CapSize {
    EnumLike,
    Summary,
    Message,
    Payload,
    Symbol,
    Path,
    ShortPath,
}

impl CapSize {
    /// Length below which a value is accepted as it is.
    pub open spec fn spec_max_input_length(self) -> nat {
        match self {
            CapSize::EnumLike => 128,
            CapSize::Summary => 1024,
            CapSize::Message => 8196,
            CapSize::Payload => 20_000,
            CapSize::Symbol => 256,
            CapSize::Path => 256,
            CapSize::ShortPath => 128,
        }
    }

    /// Margin granted on top of the input length before truncation.
    pub open spec fn spec_grace_size(self) -> nat {
        match self {
            CapSize::EnumLike => 10,
            CapSize::Summary => 100,
            CapSize::Message => 200,
            CapSize::Payload => 1000,
            CapSize::Symbol => 20,
            CapSize::Path => 40,
            CapSize::ShortPath => 20,
        }
    }

    pub fn max_input_length(&self) -> (r: usize)
        ensures
            r == self.spec_max_input_length(),
    {
        match *self {
            CapSize::EnumLike => 128,
            CapSize::Summary => 1024,
            CapSize::Message => 8196,
            CapSize::Payload => 20_000,
            CapSize::Symbol => 256,
            CapSize::Path => 256,
            CapSize::ShortPath => 128,
        }
    }

    pub fn grace_size(&self) -> (r: usize)
        ensures
            r == self.spec_grace_size(),
    {
        match *self {
            CapSize::EnumLike => 10,
            CapSize::Summary => 100,
            CapSize::Message => 200,
            CapSize::Payload => 1000,
            CapSize::Symbol => 20,
            CapSize::Path => 40,
            CapSize::ShortPath => 20,
        }
    }

    /// The hard truncation threshold: the input length plus the grace margin.
    pub fn max_field_length(&self) -> (r: usize)
        ensures
            r == self.spec_max_input_length() + self.spec_grace_size(),
    {
        self.max_input_length() + self.grace_size()
    }
}


/// The type of PII contained on a field.
#[derive(Debug, Clone, Copy, PartialEq, Eq, Structural, Hash)]
pub enum PiiKind {
    Freeform,
    Ip,
    Id,
    Username,
    Hostname,
    Sensitive,
    Name,
    Email,
    Location,
    Databag,
}

/// Meta information about a field.
#[derive(Debug, Clone, Copy)]
pub struct FieldAttrs {
    /// Optionally the name of the field.
    pub name: Option<&'static str>,
    /// If the field is required.
    pub required: bool,
    /// The maximum size of the field.
    pub cap_size: Option<CapSize>,
    /// The type of PII on the field.
    pub pii_kind: Option<PiiKind>,
}

impl FieldAttrs {
    /// The schema of a field that declares nothing: unnamed, optional, uncapped, no PII.
    pub open spec fn is_default(self) -> bool {
        &&& self.name is None
        &&& !self.required
        &&& self.cap_size is None
        &&& self.pii_kind is None
    }
}

impl Default for FieldAttrs {
    fn default() -> (r: FieldAttrs)
        ensures
            r.is_default(),
    {
        FieldAttrs { name: None, required: false, cap_size: None, pii_kind: None }
    }
}

/// One segment of a path: a key of a structure or mapping, or an index of a sequence.
#[derive(Debug, Clone)]
pub enum PathItem<'a> {
    StaticKey(&'a str),
    DynamicKey(String),
    Index(usize),
}

/// Processing state passed downwards during processing.
///
/// Each state borrows the state of its parent, so the chain of states mirrors the call
/// stack of the walk.
#[derive(Debug, Clone)]
pub struct ProcessingState<'a> {
    parent: Option<&'a ProcessingState<'a>>,
    path: Option<PathItem<'a>>,
    attrs: Option<FieldAttrs>,
}

/// Represents the path in a structure
#[derive(Debug)]
pub struct Path<'a>(&'a ProcessingState<'a>);

impl<'a> ProcessingState<'a> {
    /// The path segments from the root down to this state.
    pub closed spec fn spec_items(self) -> Seq<PathItem<'a>>
        decreases self,
    {
        let above = match self.parent {
            Some(p) => p.spec_items(),
            None => Seq::empty(),
        };
        match self.path {
            Some(item) => above.push(item),
            None => above,
        }
    }

    /// The segment that produced this state, if any.
    pub closed spec fn spec_segment(self) -> Option<PathItem<'a>> {
        self.path
    }

    /// The field attributes in effect at this state.
    pub closed spec fn spec_attrs(self) -> Option<FieldAttrs> {
        self.attrs
    }

    /// The state at the root of a walk: no segment and default attributes.
    pub fn root() -> (r: ProcessingState<'a>)
        ensures
            r.spec_items() == Seq::<PathItem<'a>>::empty(),
            r.spec_segment() is None,
            r.spec_attrs() is None,
    {
        ProcessingState { parent: None, path: None, attrs: None }
    }

    /// Derives a processing state by entering a static key.
    pub fn enter_static(&'a self, key: &'static str, attrs: Option<FieldAttrs>) -> (r:
        ProcessingState<'a>)
        ensures
            r.spec_segment() == Some(PathItem::StaticKey(key)),
            r.spec_items() == self.spec_items().push(PathItem::StaticKey(key)),
            r.spec_attrs() == attrs,
    {
        ProcessingState { parent: Some(self), path: Some(PathItem::StaticKey(key)), attrs: attrs }
    }

    /// Derives a processing state by entering a borrowed key.
    pub fn enter_borrowed(&'a self, key: &'a str, attrs: Option<FieldAttrs>) -> (r:
        ProcessingState<'a>)
        ensures
            r.spec_segment() == Some(PathItem::StaticKey(key)),
            r.spec_items() == self.spec_items().push(PathItem::StaticKey(key)),
            r.spec_attrs() == attrs,
    {
        ProcessingState { parent: Some(self), path: Some(PathItem::StaticKey(key)), attrs: attrs }
    }

    /// Derives a processing state by entering an index.
    pub fn enter_index(&'a self, idx: usize, attrs: Option<FieldAttrs>) -> (r: ProcessingState<'a>)
        ensures
            r.spec_segment() == Some(PathItem::<'a>::Index(idx)),
            r.spec_items() == self.spec_items().push(PathItem::Index(idx)),
            r.spec_attrs() == attrs,
    {
        ProcessingState { parent: Some(self), path: Some(PathItem::Index(idx)), attrs: attrs }
    }

    /// Returns the path in the processing state.
    pub fn path(&'a self) -> (r: Path<'a>)
        ensures
            r.spec_state() == *self,
    {
        Path(self)
    }

    /// Returns the field attributes: those given when the state was entered, else the defaults.
    pub fn attrs(&self) -> (r: FieldAttrs)
        ensures
            self.spec_attrs() matches Some(a) ==> r == a,
            self.spec_attrs() is None ==> r.is_default(),
    {
        match self.attrs {
            Some(a) => a,
            None => FieldAttrs::default(),
        }
    }
}

/// The text of a path segment: the key, or the index in decimal.
pub open spec fn segment_text<'a>(item: PathItem<'a>) -> Seq<char> {
    match item {
        PathItem::StaticKey(s) => s@,
        PathItem::DynamicKey(s) => s@,
        PathItem::Index(i) => decimal(i as nat),
    }
}

/// The texts of the segments, separated by dots.
pub open spec fn dotted<'a>(items: Seq<PathItem<'a>>) -> Seq<char>
    decreases items.len(),
{
    if items.len() == 0 {
        Seq::empty()
    } else if items.len() == 1 {
        segment_text(items[0])
    } else {
        dotted(items.drop_last()) + seq!['.'] + segment_text(items.last())
    }
}

/// The key named by a path segment, if it is a key.
pub open spec fn segment_key<'a>(item: PathItem<'a>) -> Option<Seq<char>> {
    match item {
        PathItem::StaticKey(s) => Some(s@),
        PathItem::DynamicKey(s) => Some(s@),
        PathItem::Index(_) => None,
    }
}

impl<'a> Path<'a> {
    /// The processing state whose path this is.
    pub closed spec fn spec_state(self) -> ProcessingState<'a> {
        *self.0
    }

    /// Returns the current key if there is one
    pub fn key(&self) -> (r: Option<&str>)
        ensures
            match self.spec_state().spec_segment() {
                Some(item) => (r is Some <==> segment_key(item) is Some) && (r matches Some(k)
                    ==> segment_key(item) == Some(k@)),
                None => r is None,
            },
    {
        match &self.0.path {
            Some(PathItem::StaticKey(s)) => Some(*s),
            Some(PathItem::DynamicKey(s)) => Some(s.as_str()),
            Some(PathItem::Index(_)) => None,
            None => None,
        }
    }

    /// Returns the current index if there is one
    pub fn index(&self) -> (r: Option<usize>)
        ensures
            match self.spec_state().spec_segment() {
                Some(PathItem::Index(i)) => r == Some(i),
                _ => r is None,
            },
    {
        match &self.0.path {
            Some(PathItem::Index(idx)) => Some(*idx),
            _ => None,
        }
    }

    /// The path as text: the segments from the root down, separated by dots.
    pub fn to_text(&self) -> (r: String)
        ensures
            r@ == dotted(self.spec_state().spec_items()),
    {
        let items = self.iter();
        let ghost full = self.spec_state().spec_items();
        let mut out = String::new();
        let mut i: usize = 0;
        while i < items.len()
            invariant
                items@.len() == full.len(),
                forall|k: int| 0 <= k < items@.len() ==> *items@[k] == full[k],
                i <= items@.len(),
                out@ == dotted(full.take(i as int)),
            decreases items@.len() - i,
        {
            let ghost before = out@;
            if i > 0 {
                let dot = ".";
                proof {
                    reveal_strlit(".");
                }
                out.append(dot);
            }
            match items[i] {
                PathItem::StaticKey(s) => out.append(s),
                PathItem::DynamicKey(s) => out.append(s.as_str()),
                PathItem::Index(idx) => {
                    let key = index_key(*idx);
                    out.append(key.as_str());
                },
            }
            proof {
                let next = full.take(i as int + 1);
                assert(next.drop_last() =~= full.take(i as int));
                assert(next.last() == full[i as int]);
                if i == 0 {
                    assert(next.len() == 1);
                }
            }
            i = i + 1;
        }
        proof {
            assert(full.take(full.len() as int) =~= full);
        }
        out
    }

    /// Returns the segments of the path, from the root down to the current state.
    pub fn iter(&self) -> (r: Vec<&'a PathItem<'a>>)
        ensures
            r@.len() == self.spec_state().spec_items().len(),
            forall|i: int| 0 <= i < r@.len() ==> *r@[i] == self.spec_state().spec_items()[i],
    {
        let mut items: Vec<&'a PathItem<'a>> = Vec::new();
        let mut ptr: Option<&'a ProcessingState<'a>> = Some(self.0);
        while ptr.is_some()
            invariant
                ({
                    let rest = match ptr {
                        Some(q) => q.spec_items(),
                        None => Seq::empty(),
                    };
                    &&& rest + items@.map_values(|x: &'a PathItem<'a>| *x)
                        == self.0.spec_items()
                }),
            decreases ptr,
        {
            let p = ptr.unwrap();
            if let Some(path) = &p.path {
                items.insert(0, path);
            }
            ptr = p.parent;
        }
        items
    }
}

/// A set of hooks run on the nodes that a walk reaches, one per kind of node.
///
/// A hook does not descend on its own: to continue into the node's children it calls the
/// node's `process_child_values`; returning without doing so prunes the subtree. Each hook
/// defaults to leaving its node as it is.
pub trait Processor: Sized {
    fn process_event(&mut self, event: &mut Event, meta: &mut Meta, state: &ProcessingState) -> (r:
        ProcessingResult) {
        Ok(())
    }

    fn process_span(&mut self, span: &mut Span, meta: &mut Meta, state: &ProcessingState) -> (r:
        ProcessingResult) {
        Ok(())
    }

    fn process_timestamp(
        &mut self,
        timestamp: &mut Timestamp,
        meta: &mut Meta,
        state: &ProcessingState,
    ) -> (r: ProcessingResult) {
        Ok(())
    }
}

/// A lifetime-free view of one path segment: the key, or the index.
pub open spec fn segment_view<'a>(item: PathItem<'a>) -> (Option<Seq<char>>, Option<usize>) {
    match item {
        PathItem::StaticKey(s) => (Some(s@), None),
        PathItem::DynamicKey(s) => (Some(s@), None),
        PathItem::Index(i) => (None, Some(i)),
    }
}

/// The path of a state as segment views, from the root down.
pub open spec fn path_view<'a>(state: ProcessingState<'a>) -> PathView {
    state.spec_items().map_values(|item: PathItem<'a>| segment_view(item))
}

/// A path as segment views.
pub type PathView = Seq<(Option<Seq<char>>, Option<usize>)>;

proof fn lemma_path_view_push<'a>(state: ProcessingState<'a>, child: ProcessingState<'a>, item: PathItem<'a>)
    requires
        child.spec_items() == state.spec_items().push(item),
    ensures
        path_view(child) == path_view(state).push(segment_view(item)),
{
    assert(path_view(child) =~= path_view(state).push(segment_view(item)));
}

/// Every success is the same.
pub proof fn lemma_success_is_done(r: ProcessingResult)
    requires
        r is Ok,
    ensures
        r == done(),
{
    match r {
        Ok(u) => {
            assert(u == ());
        },
        Err(_) => {},
    }
}

/// The unit success.
pub open spec fn done() -> ProcessingResult {
    Ok(())
}

/// An absent value is left as it is, with the processor unchanged and success; a present one
/// stays present.
pub open spec fn untouched_if_absent<T, P>(
    p: P,
    v: Annotated<T>,
    p2: P,
    v2: Annotated<T>,
    r: ProcessingResult,
) -> bool {
    &&& (v2.0 is Some <==> v.0 is Some)
    &&& v.0 is None ==> v2 == v && p2 == p && r == done()
}

/// An absent value is left as it is, with success; a present one stays present.
pub open spec fn kept_if_absent<T>(v: Annotated<T>, v2: Annotated<T>, r: ProcessingResult) -> bool {
    &&& (v2.0 is Some <==> v.0 is Some)
    &&& v.0 is None ==> v2 == v && r == done()
}

/// A value that a walk can visit.
pub trait ProcessValue: Sized {
    /// What walking `v`, at a state with path `path` and attributes `attrs`, may leave: the
    /// value `v2` and the result `r`. What the hooks do to the processor itself is theirs.
    spec fn walked(
        v: Annotated<Self>,
        path: PathView,
        attrs: Option<FieldAttrs>,
        v2: Annotated<Self>,
        r: ProcessingResult,
    ) -> bool;

    /// Runs the processor on the value and, as its hooks decide, on what lies inside it.
    /// An absent value is left alone; a present one stays present.
    fn process_value<P: Processor>(
        value: &mut Annotated<Self>,
        processor: &mut P,
        state: &ProcessingState,
    ) -> (r: ProcessingResult)
        ensures
            Self::walked(*old(value), path_view(*state), state.spec_attrs(), *final(value), r),
            untouched_if_absent(*old(processor), *old(value), *final(processor), *final(value), r),
    ;
}

/// Runs the processor on an annotated value.
pub fn process_value<T: ProcessValue, P: Processor>(
    value: &mut Annotated<T>,
    processor: &mut P,
    state: &ProcessingState,
) -> (r: ProcessingResult)
    ensures
        T::walked(*old(value), path_view(*state), state.spec_attrs(), *final(value), r),
        untouched_if_absent(*old(processor), *old(value), *final(processor), *final(value), r),
{
    T::process_value(value, processor, state)
}

/// The path of child `i` below `path`: its key where `keys` names them, else its index.
pub open spec fn child_path(path: PathView, keys: Option<Seq<Seq<char>>>, i: int) -> PathView {
    match keys {
        Some(ks) => path.push((Some(ks[i]), None)),
        None => path.push((None, Some(i as usize))),
    }
}

/// The walk over a sequence of children: children `0..k` were walked in order, each at its
/// own path (`child_path`) with no attributes, all succeeding but the last visited, which
/// gave `r`; the walk stops at the first failure, leaving the children after it unchanged.
pub open spec fn walk_chain<T: ProcessValue>(
    before: Seq<Annotated<T>>,
    after: Seq<Annotated<T>>,
    path: PathView,
    keys: Option<Seq<Seq<char>>>,
    k: int,
    r: ProcessingResult,
) -> bool {
    &&& after.len() == before.len()
    &&& 0 <= k <= before.len()
    &&& forall|i: int|
        0 <= i < k ==> T::walked(
            before[i],
            child_path(path, keys, i),
            None,
            #[trigger] after[i],
            if i == k - 1 {
                r
            } else {
                done()
            },
        )
    &&& r is Ok ==> k == before.len()
    &&& r is Err ==> k >= 1
    &&& forall|i: int| k <= i < before.len() ==> #[trigger] after[i] == before[i]
}

impl ProcessValue for Timestamp {
    /// The process_timestamp hook decides what happens to a present value; an absent one is left alone.
    open spec fn walked(
        v: Annotated<Self>,
        path: PathView,
        attrs: Option<FieldAttrs>,
        v2: Annotated<Self>,
        r: ProcessingResult,
    ) -> bool {
        kept_if_absent(v, v2, r)
    }

    fn process_value<P: Processor>(
        value: &mut Annotated<Self>,
        processor: &mut P,
        state: &ProcessingState,
    ) -> (r: ProcessingResult) {
        match value.0.take() {
            Some(t) => {
                let mut t = t;
                let r = processor.process_timestamp(&mut t, &mut value.1, state);
                value.0 = Some(t);
                r
            },
            None => Ok(()),
        }
    }
}

impl ProcessValue for Span {
    /// The process_span hook decides what happens to a present value; an absent one is left alone.
    open spec fn walked(
        v: Annotated<Self>,
        path: PathView,
        attrs: Option<FieldAttrs>,
        v2: Annotated<Self>,
        r: ProcessingResult,
    ) -> bool {
        kept_if_absent(v, v2, r)
    }

    fn process_value<P: Processor>(
        value: &mut Annotated<Self>,
        processor: &mut P,
        state: &ProcessingState,
    ) -> (r: ProcessingResult) {
        match value.0.take() {
            Some(s) => {
                let mut s = s;
                let r = processor.process_span(&mut s, &mut value.1, state);
                value.0 = Some(s);
                r
            },
            None => Ok(()),
        }
    }
}

impl ProcessValue for Event {
    /// The process_event hook decides what happens to a present value; an absent one is left alone.
    open spec fn walked(
        v: Annotated<Self>,
        path: PathView,
        attrs: Option<FieldAttrs>,
        v2: Annotated<Self>,
        r: ProcessingResult,
    ) -> bool {
        kept_if_absent(v, v2, r)
    }

    fn process_value<P: Processor>(
        value: &mut Annotated<Self>,
        processor: &mut P,
        state: &ProcessingState,
    ) -> (r: ProcessingResult) {
        match value.0.take() {
            Some(e) => {
                let mut e = e;
                let r = processor.process_event(&mut e, &mut value.1, state);
                value.0 = Some(e);
                r
            },
            None => Ok(()),
        }
    }
}

impl<T: ProcessValue> ProcessValue for Vec<Annotated<T>> {
    /// The elements are walked in order, element `i` at the path extended by index `i`; the
    /// first failure stops the walk and is returned. Length and diagnostics are kept.
    open spec fn walked(
        v: Annotated<Self>,
        path: PathView,
        attrs: Option<FieldAttrs>,
        v2: Annotated<Self>,
        r: ProcessingResult,
    ) -> bool {
        &&& v2.1 == v.1
        &&& kept_if_absent(v, v2, r)
        &&& v.0 is Some ==> exists|k: int|
            #[trigger] walk_chain::<T>(v.0->0@, v2.0->0@, path, None, k, r)
    }

    fn process_value<P: Processor>(
        value: &mut Annotated<Self>,
        processor: &mut P,
        state: &ProcessingState,
    ) -> (r: ProcessingResult) {
        let ghost path = path_view(*state);
        match value.0.take() {
            Some(items) => {
                let ghost orig = items@;
                let ghost n = items@.len() as int;
                let mut rest = reversed(items);
                let mut out: Vec<Annotated<T>> = Vec::new();
                let mut r: ProcessingResult = Ok(());
                let ghost mut k: int = 0;
                while rest.len() > 0
                    invariant
                        rest@.len() + out@.len() == n,
                        n == orig.len(),
                        forall|j: int| 0 <= j < rest@.len() ==> rest@[j] == orig[n - 1 - j],
                        0 <= k <= out@.len(),
                        r is Ok ==> k == out@.len(),
                        r is Err ==> k >= 1,
                        forall|i: int|
                            0 <= i < k ==> T::walked(
                                orig[i],
                                child_path(path, None, i),
                                None,
                                #[trigger] out@[i],
                                if i == k - 1 {
                                    r
                                } else {
                                    done()
                                },
                            ),
                        forall|i: int| k <= i < out@.len() ==> #[trigger] out@[i] == orig[i],
                        path == path_view(*state),
                    decreases rest@.len(),
                {
                    let mut item = rest.pop().unwrap();
                    let ghost j = out@.len() as int;
                    proof {
                        assert(item == orig[j]);
                    }
                    if r.is_ok() {
                        let ghost r0 = r;
                        let inner = state.enter_index(out.len(), None);
                        proof {
                            lemma_path_view_push(*state, inner, PathItem::Index(j as usize));
                            assert(path_view(inner) == child_path(path, None, j));
                        }
                        r = T::process_value(&mut item, processor, &inner);
                        proof {
                            lemma_success_is_done(r0);
                            k = k + 1;
                        }
                    }
                    out.push(item);
                    proof {
                        assert forall|i: int| 0 <= i < k implies T::walked(
                            orig[i],
                            child_path(path, None, i),
                            None,
                            #[trigger] out@[i],
                            if i == k - 1 {
                                r
                            } else {
                                done()
                            },
                        ) by {
                            assert(out@[i] == out@.drop_last()[i] || i == j);
                        }
                    }
                }
                value.0 = Some(out);
                proof {
                    assert(old(value).0->0@ == orig);
                    assert(value.0->0@ == out@);
                    assert(walk_chain::<T>(orig, out@, path, None, k, r));
                    assert(walk_chain::<T>(old(value).0->0@, value.0->0@, path, None, k, r));
                }
                r
            },
            None => Ok(()),
        }
    }
}

/// The path of a named field below `path`.
pub open spec fn field_path(path: PathView, name: Seq<char>) -> PathView {
    path.push((Some(name), None))
}

/// Walking the first of two children gave `r1`: on failure the walk stopped there with that
/// result and the second child is unchanged; on success the second child was walked and its
/// result `r2` is the walk's.
pub open spec fn then_walk(
    r1: ProcessingResult,
    second_kept: bool,
    r2_walked: bool,
    r: ProcessingResult,
) -> bool {
    if r1 is Err {
        r == r1 && second_kept
    } else {
        r2_walked
    }
}

impl Span {
    /// Walks the span's children: its end, then its start; the first failure stops the walk.
    /// The other fields are left as they are.
    pub fn process_child_values<P: Processor>(&mut self, processor: &mut P, state: &ProcessingState) -> (r:
        ProcessingResult)
        ensures
            final(self).op == old(self).op,
            final(self).span_id == old(self).span_id,
            final(self).trace_id == old(self).trace_id,
            exists|r1: ProcessingResult|
                #[trigger] Timestamp::walked(
                    old(self).timestamp,
                    field_path(path_view(*state), "timestamp"@),
                    None,
                    final(self).timestamp,
                    r1,
                ) && then_walk(
                    r1,
                    final(self).start_timestamp == old(self).start_timestamp,
                    Timestamp::walked(
                        old(self).start_timestamp,
                        field_path(path_view(*state), "start_timestamp"@),
                        None,
                        final(self).start_timestamp,
                        r,
                    ),
                    r,
                ),
    {
        let ghost path = path_view(*state);
        let inner = state.enter_static("timestamp", None);
        proof {
            lemma_path_view_push(*state, inner, PathItem::StaticKey("timestamp"));
        }
        let r1 = Timestamp::process_value(&mut self.timestamp, processor, &inner);
        let ghost ts = self.timestamp;
        proof {
            assert(Timestamp::walked(old(self).timestamp, field_path(path, "timestamp"@), None, ts, r1));
        }
        if r1.is_err() {
            return r1;
        }
        let inner = state.enter_static("start_timestamp", None);
        proof {
            lemma_path_view_push(*state, inner, PathItem::StaticKey("start_timestamp"));
        }
        let r = Timestamp::process_value(&mut self.start_timestamp, processor, &inner);
        proof {
            assert(Timestamp::walked(old(self).timestamp, field_path(path, "timestamp"@), None, self.timestamp, r1));
        }
        r
    }
}

impl Event {
    /// Walks the event's children: its end, its start, then its spans; the first failure
    /// stops the walk. The other fields are left as they are.
    pub fn process_child_values<P: Processor>(&mut self, processor: &mut P, state: &ProcessingState) -> (r:
        ProcessingResult)
        ensures
            final(self).ty == old(self).ty,
            final(self).transaction == old(self).transaction,
            final(self).contexts == old(self).contexts,
            exists|r1: ProcessingResult|
                #[trigger] Timestamp::walked(
                    old(self).timestamp,
                    field_path(path_view(*state), "timestamp"@),
                    None,
                    final(self).timestamp,
                    r1,
                ) && then_walk(
                    r1,
                    final(self).start_timestamp == old(self).start_timestamp && final(self).spans
                        == old(self).spans,
                    exists|r2: ProcessingResult| #[trigger] Timestamp::walked(
                        old(self).start_timestamp,
                        field_path(path_view(*state), "start_timestamp"@),
                        None,
                        final(self).start_timestamp,
                        r2,
                    ) && then_walk(
                        r2,
                        final(self).spans == old(self).spans,
                        Vec::<Annotated<Span>>::walked(
                            old(self).spans,
                            field_path(path_view(*state), "spans"@),
                            None,
                            final(self).spans,
                            r,
                        ),
                        r,
                    ),
                    r,
                ),
    {
        let ghost path = path_view(*state);
        let inner = state.enter_static("timestamp", None);
        proof {
            lemma_path_view_push(*state, inner, PathItem::StaticKey("timestamp"));
        }
        let r1 = Timestamp::process_value(&mut self.timestamp, processor, &inner);
        let ghost ts = self.timestamp;
        proof {
            assert(Timestamp::walked(old(self).timestamp, field_path(path, "timestamp"@), None, ts, r1));
        }
        if r1.is_err() {
            return r1;
        }
        let inner = state.enter_static("start_timestamp", None);
        proof {
            lemma_path_view_push(*state, inner, PathItem::StaticKey("start_timestamp"));
        }
        let r2 = Timestamp::process_value(&mut self.start_timestamp, processor, &inner);
        let ghost st = self.start_timestamp;
        proof {
            assert(Timestamp::walked(
                old(self).start_timestamp,
                field_path(path, "start_timestamp"@),
                None,
                st,
                r2,
            ));
        }
        if r2.is_err() {
            return r2;
        }
        let inner = state.enter_static("spans", None);
        proof {
            lemma_path_view_push(*state, inner, PathItem::StaticKey("spans"));
        }
        let r = Vec::<Annotated<Span>>::process_value(&mut self.spans, processor, &inner);
        proof {
            assert(Timestamp::walked(old(self).timestamp, field_path(path, "timestamp"@), None, self.timestamp, r1));
            assert(Timestamp::walked(
                old(self).start_timestamp,
                field_path(path, "start_timestamp"@),
                None,
                self.start_timestamp,
                r2,
            ));
        }
        r
    }
}

impl<T: ProcessValue> ProcessValue for Object<T> {
    /// The entries are walked in order, each at the path extended by its key; the first
    /// failure stops the walk and is returned. Keys, their order and diagnostics are kept.
    open spec fn walked(
        v: Annotated<Self>,
        path: PathView,
        attrs: Option<FieldAttrs>,
        v2: Annotated<Self>,
        r: ProcessingResult,
    ) -> bool {
        &&& v2.1 == v.1
        &&& kept_if_absent(v, v2, r)
        &&& v.0 is Some ==> {
            &&& v2.0->0.entries@.len() == v.0->0.entries@.len()
            &&& forall|i: int|
                0 <= i < v.0->0.entries@.len() ==> (#[trigger] v2.0->0.entries@[i]).0
                    == v.0->0.entries@[i].0
            &&& exists|k: int|
                #[trigger] walk_chain::<T>(
                    entry_values(v.0->0),
                    entry_values(v2.0->0),
                    path,
                    Some(entry_keys(v.0->0)),
                    k,
                    r,
                )
        }
    }

    fn process_value<P: Processor>(
        value: &mut Annotated<Self>,
        processor: &mut P,
        state: &ProcessingState,
    ) -> (r: ProcessingResult) {
        let ghost path = path_view(*state);
        match value.0.take() {
            Some(o) => {
                let ghost obj = o;
                let ghost orig = o.entries@;
                let ghost n = o.entries@.len() as int;
                let ghost keys = entry_keys(o);
                let ghost before = entry_values(o);
                let mut rest = reversed(o.entries);
                let mut out: Vec<(String, Annotated<T>)> = Vec::new();
                let mut r: ProcessingResult = Ok(());
                let ghost mut k: int = 0;
                while rest.len() > 0
                    invariant
                        rest@.len() + out@.len() == n,
                        n == orig.len(),
                        orig == obj.entries@,
                        keys == entry_keys(obj),
                        before == entry_values(obj),
                        forall|j: int| 0 <= j < rest@.len() ==> rest@[j] == orig[n - 1 - j],
                        forall|i: int| 0 <= i < out@.len() ==> (#[trigger] out@[i]).0 == orig[i].0,
                        0 <= k <= out@.len(),
                        r is Ok ==> k == out@.len(),
                        r is Err ==> k >= 1,
                        forall|i: int|
                            0 <= i < k ==> T::walked(
                                before[i],
                                child_path(path, Some(keys), i),
                                None,
                                #[trigger] out@[i].1,
                                if i == k - 1 {
                                    r
                                } else {
                                    done()
                                },
                            ),
                        forall|i: int| k <= i < out@.len() ==> #[trigger] out@[i].1 == before[i],
                        path == path_view(*state),
                    decreases rest@.len(),
                {
                    let (key, mut item) = rest.pop().unwrap();
                    let ghost j = out@.len() as int;
                    proof {
                        assert((key, item) == orig[j]);
                        assert(before[j] == item);
                        assert(keys[j] == key@);
                    }
                    if r.is_ok() {
                        let ghost r0 = r;
                        let ks = key.as_str();
                        let inner = state.enter_borrowed(ks, None);
                        proof {
                            lemma_path_view_push(*state, inner, PathItem::StaticKey(ks));
                            assert(path_view(inner) == child_path(path, Some(keys), j));
                        }
                        r = T::process_value(&mut item, processor, &inner);
                        proof {
                            lemma_success_is_done(r0);
                            k = k + 1;
                        }
                    }
                    out.push((key, item));
                    proof {
                        assert forall|i: int| 0 <= i < k implies T::walked(
                            before[i],
                            child_path(path, Some(keys), i),
                            None,
                            #[trigger] out@[i].1,
                            if i == k - 1 {
                                r
                            } else {
                                done()
                            },
                        ) by {
                            assert(out@[i] == out@.drop_last()[i] || i == j);
                        }
                    }
                }
                value.0 = Some(Object { entries: out });
                proof {
                    let after = entry_values(value.0->0);
                    assert(after =~= out@.map_values(|e: (String, Annotated<T>)| e.1));
                    assert forall|i: int| 0 <= i < n implies #[trigger] after[i] == out@[i].1 by {}
                    assert(walk_chain::<T>(before, after, path, Some(keys), k, r));
                }
                r
            },
            None => Ok(()),
        }
    }
}

/// Visits every node of an untyped tree, entering each child's key or index. No hook applies
/// to untyped nodes, so the walk changes nothing.
fn walk_value(value: &Annotated<Value>, state: &ProcessingState)
    decreases value,
{
    match &value.0 {
        Some(Value::Object(o)) => {
            let mut i: usize = 0;
            while i < o.entries.len()
                invariant
                    value.0 == Some(Value::Object(*o)),
                decreases o.entries@.len() - i,
            {
                let inner = state.enter_borrowed(o.entries[i].0.as_str(), None);
                proof {
                    vstd::std_specs::vec::axiom_vec_index_decreases(o.entries, i as int);
                    assert(decreases_to!(*value => value.0));
                    assert(decreases_to!(value.0 => value.0->0));
                    assert(decreases_to!(value.0->0 => (value.0->0)->Object_0));
                    assert(decreases_to!(*o => o.entries));
                    assert(decreases_to!(o.entries[i as int] => o.entries[i as int].1));
                }
                walk_value(&o.entries[i].1, &inner);
                i = i + 1;
            }
        },
        Some(Value::Array(items)) => {
            let mut i: usize = 0;
            while i < items.len()
                invariant
                    value.0 == Some(Value::Array(*items)),
                decreases items@.len() - i,
            {
                let inner = state.enter_index(i, None);
                proof {
                    vstd::std_specs::vec::axiom_vec_index_decreases(*items, i as int);
                    assert(decreases_to!(*value => value.0));
                    assert(decreases_to!(value.0 => value.0->0));
                    assert(decreases_to!(value.0->0 => (value.0->0)->Array_0));
                }
                walk_value(&items[i], &inner);
                i = i + 1;
            }
        },
        _ => {},
    }
}

impl ProcessValue for Value {
    /// No hook applies: the walk changes nothing.
    open spec fn walked(
        v: Annotated<Self>,
        path: PathView,
        attrs: Option<FieldAttrs>,
        v2: Annotated<Self>,
        r: ProcessingResult,
    ) -> bool {
        v2 == v && r == done()
    }

    fn process_value<P: Processor>(
        value: &mut Annotated<Self>,
        processor: &mut P,
        state: &ProcessingState,
    ) -> (r: ProcessingResult)
        ensures
            r is Ok,
            *final(value) == *old(value),
    {
        walk_value(value, state);
        Ok(())
    }
}

impl ProcessValue for String {
    /// No hook applies: the walk changes nothing.
    open spec fn walked(
        v: Annotated<Self>,
        path: PathView,
        attrs: Option<FieldAttrs>,
        v2: Annotated<Self>,
        r: ProcessingResult,
    ) -> bool {
        v2 == v && r == done()
    }

    fn process_value<P: Processor>(
        value: &mut Annotated<Self>,
        processor: &mut P,
        state: &ProcessingState,
    ) -> (r: ProcessingResult)
        ensures
            r is Ok,
            *final(value) == *old(value),
    {
        Ok(())
    }
}

impl ProcessValue for bool {
    /// No hook applies: the walk changes nothing.
    open spec fn walked(
        v: Annotated<Self>,
        path: PathView,
        attrs: Option<FieldAttrs>,
        v2: Annotated<Self>,
        r: ProcessingResult,
    ) -> bool {
        v2 == v && r == done()
    }

    fn process_value<P: Processor>(
        value: &mut Annotated<Self>,
        processor: &mut P,
        state: &ProcessingState,
    ) -> (r: ProcessingResult)
        ensures
            r is Ok,
            *final(value) == *old(value),
    {
        Ok(())
    }
}

impl ProcessValue for u64 {
    /// No hook applies: the walk changes nothing.
    open spec fn walked(
        v: Annotated<Self>,
        path: PathView,
        attrs: Option<FieldAttrs>,
        v2: Annotated<Self>,
        r: ProcessingResult,
    ) -> bool {
        v2 == v && r == done()
    }

    fn process_value<P: Processor>(
        value: &mut Annotated<Self>,
        processor: &mut P,
        state: &ProcessingState,
    ) -> (r: ProcessingResult)
        ensures
            r is Ok,
            *final(value) == *old(value),
    {
        Ok(())
    }
}

impl ProcessValue for i64 {
    /// No hook applies: the walk changes nothing.
    open spec fn walked(
        v: Annotated<Self>,
        path: PathView,
        attrs: Option<FieldAttrs>,
        v2: Annotated<Self>,
        r: ProcessingResult,
    ) -> bool {
        v2 == v && r == done()
    }

    fn process_value<P: Processor>(
        value: &mut Annotated<Self>,
        processor: &mut P,
        state: &ProcessingState,
    ) -> (r: ProcessingResult)
        ensures
            r is Ok,
            *final(value) == *old(value),
    {
        Ok(())
    }
}

impl ProcessValue for Uuid {
    /// No hook applies: the walk changes nothing.
    open spec fn walked(
        v: Annotated<Self>,
        path: PathView,
        attrs: Option<FieldAttrs>,
        v2: Annotated<Self>,
        r: ProcessingResult,
    ) -> bool {
        v2 == v && r == done()
    }

    fn process_value<P: Processor>(
        value: &mut Annotated<Self>,
        processor: &mut P,
        state: &ProcessingState,
    ) -> (r: ProcessingResult)
        ensures
            r is Ok,
            *final(value) == *old(value),
    {
        Ok(())
    }
}

impl ProcessValue for Float {
    /// No hook applies: the walk changes nothing.
    open spec fn walked(
        v: Annotated<Self>,
        path: PathView,
        attrs: Option<FieldAttrs>,
        v2: Annotated<Self>,
        r: ProcessingResult,
    ) -> bool {
        v2 == v && r == done()
    }

    fn process_value<P: Processor>(
        value: &mut Annotated<Self>,
        processor: &mut P,
        state: &ProcessingState,
    ) -> (r: ProcessingResult)
        ensures
            r is Ok,
            *final(value) == *old(value),
    {
        Ok(())
    }
}

} // verus!
