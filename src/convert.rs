//! Conversion between the untyped value tree and typed structures.
use vstd::prelude::*;

use crate::ids::{uuid_of, uuid_text, Uuid};
use crate::timestamp::{
    datetime_text_result, float_denominator, float_micros, float_nanos, float_numerator,
    float_whole, in_range, lemma_float_micros_bounded,
    lemma_denominator_positive, out_of_range_error, out_of_range_message, Timestamp, MAX_SECS,
    MIN_SECS, NANOS_PER_SEC,
};
use crate::types::{
    decimal, errors_of, first_key_index, flags_of, index_key, is_first_key, key_at,
    lemma_first_key_index, str_eq, meta_is_empty, tree_is_empty, tree_is_sparse,
    Annotated, Float, Meta, MetaTree, Object, Value,
};

verus! {

/// The result is absent and carries the input's diagnostics unchanged.
pub open spec fn absent_as_given<T>(value: Annotated<Value>, r: Annotated<T>) -> bool {
    r.0 is None && r.1 == value.1
}

/// The result is absent and carries the input's diagnostics plus one error, `message`.
pub open spec fn absent_with_error<T>(value: Annotated<Value>, r: Annotated<T>, message: Seq<char>) -> bool {
    &&& r.0 is None
    &&& errors_of(r.1) == errors_of(value.1).push(message)
    &&& flags_of(r.1) == flags_of(value.1)
}

/// Records `message` on the diagnostics and yields an absent value.
pub(crate) fn reject<T>(mut meta: Meta, message: &str) -> (r: Annotated<T>)
    ensures
        r.0 is None,
        errors_of(r.1) == errors_of(meta).push(message@),
        flags_of(r.1) == flags_of(meta),
{
    meta.add_error(message.to_owned());
    Annotated(None, meta)
}

/// Conversion of an annotated untyped value into a typed one.
pub trait FromValue: Sized {
    /// Whether a non-null value of this variant is of the kind the type takes.
    spec fn accepts(v: Value) -> bool;

    /// What parsing makes of the input.
    spec fn parses_to(value: Annotated<Value>, r: Annotated<Self>) -> bool;

    /// Creates the typed value from an annotated untyped value. An absent input, or a null
    /// one where the type does not take null, gives an absent result with the diagnostics
    /// unchanged; an input of another kind gives an absent result with exactly one more error.
    fn from_value(value: Annotated<Value>) -> (r: Annotated<Self>)
        ensures
            Self::parses_to(value, r),
            value.0 is None ==> absent_as_given(value, r),
            (value.0 matches Some(Value::Null) && !Self::accepts(Value::Null)) ==> absent_as_given(
                value,
                r,
            ),
            (value.0 matches Some(v) && !(v is Null) && !Self::accepts(v)) ==> (r.0 is None
                && errors_of(r.1).len() == errors_of(value.1).len() + 1 && errors_of(
                r.1,
            ).drop_last() == errors_of(value.1) && flags_of(r.1) == flags_of(value.1)),
    ;
}

/// Conversion of a typed annotated value back into the untyped tree.
pub trait ToValue: Sized {
    /// What serializing makes of the input.
    spec fn serializes_to(value: Annotated<Self>, r: Annotated<Value>) -> bool;

    /// Whether the value or anything inside it carries diagnostics.
    spec fn has_diagnostics(value: Annotated<Self>) -> bool;

    /// The diagnostics tree that extraction makes of the value.
    spec fn is_meta_tree_of(value: Annotated<Self>, t: MetaTree) -> bool;

    /// Boxes the typed value back into an untyped one, keeping its diagnostics.
    fn to_value(value: Annotated<Self>) -> (r: Annotated<Value>)
        ensures
            Self::serializes_to(value, r),
            r.1 == value.1,
            r.0 is None <==> value.0 is None,
    ;

    /// Extracts the diagnostics of the value into a tree of the same shape.
    fn extract_meta_tree(value: &Annotated<Self>) -> (r: MetaTree)
        ensures
            Self::is_meta_tree_of(*value, r),
            r.meta@ == value.1@,
            tree_is_sparse(r),
            tree_is_empty(r) <==> !Self::has_diagnostics(*value),
    ;
}


/// A tree that holds only the node's own diagnostics.
pub open spec fn leaf_meta_tree(meta: Meta, t: MetaTree) -> bool {
    t.meta@ == meta@ && t.children@.len() == 0
}

pub(crate) fn leaf_tree(meta: &Meta) -> (r: MetaTree)
    ensures
        leaf_meta_tree(*meta, r),
        tree_is_sparse(r),
        tree_is_empty(r) <==> meta_is_empty(*meta),
{
    MetaTree { meta: meta.duplicate(), children: Vec::new() }
}

impl FromValue for String {
    open spec fn accepts(v: Value) -> bool {
        v is String
    }

    open spec fn parses_to(value: Annotated<Value>, r: Annotated<Self>) -> bool {
        match value.0 {
            Some(Value::String(x)) => r.0 == Some(x) && r.1 == value.1,
            None | Some(Value::Null) => absent_as_given(value, r),
            _ => absent_with_error(value, r, "expected a string"@),
        }
    }

    fn from_value(value: Annotated<Value>) -> (r: Annotated<Self>) {
        match value {
            Annotated(Some(Value::String(x)), meta) => Annotated(Some(x), meta),
            Annotated(Some(Value::Null), meta) => Annotated(None, meta),
            Annotated(None, meta) => Annotated(None, meta),
            Annotated(_, meta) => reject(meta, "expected a string"),
        }
    }
}

impl ToValue for String {
    open spec fn serializes_to(value: Annotated<Self>, r: Annotated<Value>) -> bool {
        r.1 == value.1 && match value.0 {
            Some(x) => r.0 == Some(Value::String(x)),
            None => r.0 is None,
        }
    }

    open spec fn has_diagnostics(value: Annotated<Self>) -> bool {
        !meta_is_empty(value.1)
    }

    open spec fn is_meta_tree_of(value: Annotated<Self>, t: MetaTree) -> bool {
        leaf_meta_tree(value.1, t)
    }

    fn to_value(value: Annotated<Self>) -> (r: Annotated<Value>) {
        match value {
            Annotated(Some(x), meta) => Annotated(Some(Value::String(x)), meta),
            Annotated(None, meta) => Annotated(None, meta),
        }
    }

    fn extract_meta_tree(value: &Annotated<Self>) -> (r: MetaTree) {
        leaf_tree(&value.1)
    }
}

impl FromValue for bool {
    open spec fn accepts(v: Value) -> bool {
        v is Bool
    }

    open spec fn parses_to(value: Annotated<Value>, r: Annotated<Self>) -> bool {
        match value.0 {
            Some(Value::Bool(x)) => r.0 == Some(x) && r.1 == value.1,
            None | Some(Value::Null) => absent_as_given(value, r),
            _ => absent_with_error(value, r, "expected a boolean"@),
        }
    }

    fn from_value(value: Annotated<Value>) -> (r: Annotated<Self>) {
        match value {
            Annotated(Some(Value::Bool(x)), meta) => Annotated(Some(x), meta),
            Annotated(Some(Value::Null), meta) => Annotated(None, meta),
            Annotated(None, meta) => Annotated(None, meta),
            Annotated(_, meta) => reject(meta, "expected a boolean"),
        }
    }
}

impl ToValue for bool {
    open spec fn serializes_to(value: Annotated<Self>, r: Annotated<Value>) -> bool {
        r.1 == value.1 && match value.0 {
            Some(x) => r.0 == Some(Value::Bool(x)),
            None => r.0 is None,
        }
    }

    open spec fn has_diagnostics(value: Annotated<Self>) -> bool {
        !meta_is_empty(value.1)
    }

    open spec fn is_meta_tree_of(value: Annotated<Self>, t: MetaTree) -> bool {
        leaf_meta_tree(value.1, t)
    }

    fn to_value(value: Annotated<Self>) -> (r: Annotated<Value>) {
        match value {
            Annotated(Some(x), meta) => Annotated(Some(Value::Bool(x)), meta),
            Annotated(None, meta) => Annotated(None, meta),
        }
    }

    fn extract_meta_tree(value: &Annotated<Self>) -> (r: MetaTree) {
        leaf_tree(&value.1)
    }
}

impl FromValue for u64 {
    open spec fn accepts(v: Value) -> bool {
        v is U64
    }

    open spec fn parses_to(value: Annotated<Value>, r: Annotated<Self>) -> bool {
        match value.0 {
            Some(Value::U64(x)) => r.0 == Some(x) && r.1 == value.1,
            None | Some(Value::Null) => absent_as_given(value, r),
            _ => absent_with_error(value, r, "expected an unsigned integer"@),
        }
    }

    fn from_value(value: Annotated<Value>) -> (r: Annotated<Self>) {
        match value {
            Annotated(Some(Value::U64(x)), meta) => Annotated(Some(x), meta),
            Annotated(Some(Value::Null), meta) => Annotated(None, meta),
            Annotated(None, meta) => Annotated(None, meta),
            Annotated(_, meta) => reject(meta, "expected an unsigned integer"),
        }
    }
}

impl ToValue for u64 {
    open spec fn serializes_to(value: Annotated<Self>, r: Annotated<Value>) -> bool {
        r.1 == value.1 && match value.0 {
            Some(x) => r.0 == Some(Value::U64(x)),
            None => r.0 is None,
        }
    }

    open spec fn has_diagnostics(value: Annotated<Self>) -> bool {
        !meta_is_empty(value.1)
    }

    open spec fn is_meta_tree_of(value: Annotated<Self>, t: MetaTree) -> bool {
        leaf_meta_tree(value.1, t)
    }

    fn to_value(value: Annotated<Self>) -> (r: Annotated<Value>) {
        match value {
            Annotated(Some(x), meta) => Annotated(Some(Value::U64(x)), meta),
            Annotated(None, meta) => Annotated(None, meta),
        }
    }

    fn extract_meta_tree(value: &Annotated<Self>) -> (r: MetaTree) {
        leaf_tree(&value.1)
    }
}

impl FromValue for i64 {
    open spec fn accepts(v: Value) -> bool {
        v is I64
    }

    open spec fn parses_to(value: Annotated<Value>, r: Annotated<Self>) -> bool {
        match value.0 {
            Some(Value::I64(x)) => r.0 == Some(x) && r.1 == value.1,
            None | Some(Value::Null) => absent_as_given(value, r),
            _ => absent_with_error(value, r, "expected a signed integer"@),
        }
    }

    fn from_value(value: Annotated<Value>) -> (r: Annotated<Self>) {
        match value {
            Annotated(Some(Value::I64(x)), meta) => Annotated(Some(x), meta),
            Annotated(Some(Value::Null), meta) => Annotated(None, meta),
            Annotated(None, meta) => Annotated(None, meta),
            Annotated(_, meta) => reject(meta, "expected a signed integer"),
        }
    }
}

impl ToValue for i64 {
    open spec fn serializes_to(value: Annotated<Self>, r: Annotated<Value>) -> bool {
        r.1 == value.1 && match value.0 {
            Some(x) => r.0 == Some(Value::I64(x)),
            None => r.0 is None,
        }
    }

    open spec fn has_diagnostics(value: Annotated<Self>) -> bool {
        !meta_is_empty(value.1)
    }

    open spec fn is_meta_tree_of(value: Annotated<Self>, t: MetaTree) -> bool {
        leaf_meta_tree(value.1, t)
    }

    fn to_value(value: Annotated<Self>) -> (r: Annotated<Value>) {
        match value {
            Annotated(Some(x), meta) => Annotated(Some(Value::I64(x)), meta),
            Annotated(None, meta) => Annotated(None, meta),
        }
    }

    fn extract_meta_tree(value: &Annotated<Self>) -> (r: MetaTree) {
        leaf_tree(&value.1)
    }
}

impl FromValue for Float {
    open spec fn accepts(v: Value) -> bool {
        v is F64
    }

    open spec fn parses_to(value: Annotated<Value>, r: Annotated<Self>) -> bool {
        match value.0 {
            Some(Value::F64(x)) => r.0 == Some(x) && r.1 == value.1,
            None | Some(Value::Null) => absent_as_given(value, r),
            _ => absent_with_error(value, r, "expected a floating point value"@),
        }
    }

    fn from_value(value: Annotated<Value>) -> (r: Annotated<Self>) {
        match value {
            Annotated(Some(Value::F64(x)), meta) => Annotated(Some(x), meta),
            Annotated(Some(Value::Null), meta) => Annotated(None, meta),
            Annotated(None, meta) => Annotated(None, meta),
            Annotated(_, meta) => reject(meta, "expected a floating point value"),
        }
    }
}

impl ToValue for Float {
    open spec fn serializes_to(value: Annotated<Self>, r: Annotated<Value>) -> bool {
        r.1 == value.1 && match value.0 {
            Some(x) => r.0 == Some(Value::F64(x)),
            None => r.0 is None,
        }
    }

    open spec fn has_diagnostics(value: Annotated<Self>) -> bool {
        !meta_is_empty(value.1)
    }

    open spec fn is_meta_tree_of(value: Annotated<Self>, t: MetaTree) -> bool {
        leaf_meta_tree(value.1, t)
    }

    fn to_value(value: Annotated<Self>) -> (r: Annotated<Value>) {
        match value {
            Annotated(Some(x), meta) => Annotated(Some(Value::F64(x)), meta),
            Annotated(None, meta) => Annotated(None, meta),
        }
    }

    fn extract_meta_tree(value: &Annotated<Self>) -> (r: MetaTree) {
        leaf_tree(&value.1)
    }
}


/// The elements in reverse order.
pub(crate) fn reversed<T>(v: Vec<T>) -> (r: Vec<T>)
    ensures
        r@.len() == v@.len(),
        forall|i: int| 0 <= i < v@.len() ==> r@[i] == v@[v@.len() - 1 - i],
{
    let ghost orig = v@;
    let mut v = v;
    let mut r: Vec<T> = Vec::new();
    while v.len() > 0
        invariant
            v@ == orig.take(v@.len() as int),
            r@.len() + v@.len() == orig.len(),
            forall|i: int| 0 <= i < r@.len() ==> r@[i] == orig[orig.len() - 1 - i],
        decreases v@.len(),
    {
        let x = v.pop().unwrap();
        r.push(x);
    }
    r
}

/// `children` holds, in the order of the elements and under their keys, the diagnostics tree
/// of each element that carries diagnostics, and nothing else; `idx` gives the element of
/// each child.
pub open spec fn kept_at<T: ToValue>(
    items: Seq<Annotated<T>>,
    keys: Seq<Seq<char>>,
    children: Seq<(String, MetaTree)>,
    idx: Seq<int>,
) -> bool {
    &&& index_shape(item_flags::<T>(items), keys, children, idx)
    &&& forall|j: int|
        0 <= j < idx.len() ==> T::is_meta_tree_of(items[idx[j]], #[trigger] children[j].1)
}

/// Which elements carry diagnostics.
pub open spec fn item_flags<T: ToValue>(items: Seq<Annotated<T>>) -> Seq<bool> {
    Seq::new(items.len(), |i: int| T::has_diagnostics(items[i]))
}

/// `children` is the sparse diagnostics tree of the elements, keyed by `keys`.
pub open spec fn kept_children<T: ToValue>(
    items: Seq<Annotated<T>>,
    keys: Seq<Seq<char>>,
    children: Seq<(String, MetaTree)>,
) -> bool {
    exists|idx: Seq<int>| kept_at::<T>(items, keys, children, idx)
}

/// The keys of a sequence: the decimal indices.
pub open spec fn index_keys(n: nat) -> Seq<Seq<char>> {
    Seq::new(n, |i: int| decimal(i as nat))
}

impl<T: FromValue> FromValue for Vec<Annotated<T>> {
    open spec fn accepts(v: Value) -> bool {
        v is Array
    }

    open spec fn parses_to(value: Annotated<Value>, r: Annotated<Self>) -> bool {
        match value.0 {
            Some(Value::Array(items)) => {
                &&& r.1 == value.1
                &&& r.0 matches Some(out)
                &&& out@.len() == items@.len()
                &&& forall|i: int|
                    0 <= i < items@.len() ==> T::parses_to(#[trigger] items@[i], out@[i])
            },
            None | Some(Value::Null) => absent_as_given(value, r),
            _ => absent_with_error(value, r, "expected array"@),
        }
    }

    fn from_value(value: Annotated<Value>) -> (r: Annotated<Self>) {
        match value {
            Annotated(Some(Value::Array(items)), meta) => {
                let ghost orig = items@;
                let mut rest = reversed(items);
                let mut out: Vec<Annotated<T>> = Vec::new();
                while rest.len() > 0
                    invariant
                        rest@.len() + out@.len() == orig.len(),
                        forall|j: int|
                            0 <= j < rest@.len() ==> rest@[j] == orig[orig.len() - 1 - j],
                        forall|i: int|
                            0 <= i < out@.len() ==> T::parses_to(#[trigger] orig[i], out@[i]),
                    decreases rest@.len(),
                {
                    let item = rest.pop().unwrap();
                    out.push(T::from_value(item));
                }
                Annotated(Some(out), meta)
            },
            Annotated(Some(Value::Null), meta) => Annotated(None, meta),
            Annotated(None, meta) => Annotated(None, meta),
            Annotated(_, meta) => reject(meta, "expected array"),
        }
    }
}

impl<T: ToValue> ToValue for Vec<Annotated<T>> {
    open spec fn serializes_to(value: Annotated<Self>, r: Annotated<Value>) -> bool {
        &&& r.1 == value.1
        &&& match value.0 {
            Some(items) => {
                &&& r.0 matches Some(Value::Array(out))
                &&& out@.len() == items@.len()
                &&& forall|i: int|
                    0 <= i < items@.len() ==> T::serializes_to(#[trigger] items@[i], out@[i])
            },
            None => r.0 is None,
        }
    }

    open spec fn has_diagnostics(value: Annotated<Self>) -> bool {
        ||| !meta_is_empty(value.1)
        ||| (value.0 matches Some(items) && exists|i: int|
            0 <= i < items@.len() && T::has_diagnostics(#[trigger] items@[i]))
    }

    open spec fn is_meta_tree_of(value: Annotated<Self>, t: MetaTree) -> bool {
        &&& t.meta@ == value.1@
        &&& match value.0 {
            Some(items) => kept_children::<T>(items@, index_keys(items@.len()), t.children@),
            None => t.children@.len() == 0,
        }
    }

    fn to_value(value: Annotated<Self>) -> (r: Annotated<Value>) {
        match value {
            Annotated(Some(items), meta) => {
                let ghost orig = items@;
                let mut rest = reversed(items);
                let mut out: Vec<Annotated<Value>> = Vec::new();
                while rest.len() > 0
                    invariant
                        rest@.len() + out@.len() == orig.len(),
                        forall|j: int|
                            0 <= j < rest@.len() ==> rest@[j] == orig[orig.len() - 1 - j],
                        forall|i: int|
                            0 <= i < out@.len() ==> T::serializes_to(#[trigger] orig[i], out@[i]),
                    decreases rest@.len(),
                {
                    let item = rest.pop().unwrap();
                    out.push(T::to_value(item));
                }
                Annotated(Some(Value::Array(out)), meta)
            },
            Annotated(None, meta) => Annotated(None, meta),
        }
    }

    fn extract_meta_tree(value: &Annotated<Self>) -> (r: MetaTree) {
        let mut tree = MetaTree { meta: value.1.duplicate(), children: Vec::new() };
        if let Some(items) = &value.0 {
            let ghost keys = index_keys(items@.len());
            let ghost flags = item_flags::<T>(items@);
            let ghost mut idx: Seq<int> = Seq::empty();
            proof {
                assert(flags.take(0) =~= Seq::<bool>::empty());
            }
            let mut i: usize = 0;
            while i < items.len()
                invariant
                    value.0 == Some(*items),
                    keys == index_keys(items@.len()),
                    flags == item_flags::<T>(items@),
                    i <= items@.len(),
                    tree.meta@ == value.1@,
                    forall|j: int| 0 <= j < idx.len() ==> #[trigger] idx[j] < i,
                    index_shape(flags.take(i as int), keys, tree.children@, idx),
                    forall|j: int|
                        0 <= j < idx.len() ==> T::is_meta_tree_of(items@[idx[j]], #[trigger] tree.children@[j].1),
                    forall|j: int|
                        0 <= j < tree.children@.len() ==> !tree_is_empty(#[trigger] tree.children@[j].1)
                            && tree_is_sparse(tree.children@[j].1),
                    forall|j: int| 0 <= j < idx.len() ==> flags[#[trigger] idx[j]],
                decreases items@.len() - i,
            {
                let ghost idx0 = idx;
                let ghost children0 = tree.children@;
                let child = T::extract_meta_tree(&items[i]);
                if !child.is_empty() {
                    let key = index_key(i);
                    proof {
                        idx = idx.push(i as int);
                    }
                    tree.children.push((key, child));
                }
                proof {
                    assert(tree.children@.len() > children0.len() ==> tree.children@.drop_last()
                        =~= children0);
                    lemma_index_shape_step(flags, keys, children0, idx0, tree.children@, idx, i as int);
                    assert forall|j: int| 0 <= j < idx.len() implies T::is_meta_tree_of(
                        items@[idx[j]],
                        #[trigger] tree.children@[j].1,
                    ) by {
                        if j < idx0.len() {
                            assert(tree.children@[j] == children0[j]);
                        }
                    }
                }
                i = i + 1;
            }
            proof {
                assert(flags.take(flags.len() as int) =~= flags);
                assert(kept_at::<T>(items@, keys, tree.children@, idx));
                if tree.children@.len() > 0 {
                    assert(flags[idx[0]]);
                }
                if Self::has_diagnostics(*value) && meta_is_empty(value.1) {
                    let k = choose|k: int| 0 <= k < items@.len() && T::has_diagnostics(#[trigger] items@[k]);
                    assert(flags[k]);
                    assert(exists|j: int| 0 <= j < idx.len() && idx[j] == k);
                }
            }
        }
        tree
    }
}


/// The values of a mapping's entries, in order.
pub open spec fn entry_values<T>(o: Object<T>) -> Seq<Annotated<T>> {
    o.entries@.map_values(|e: (String, Annotated<T>)| e.1)
}

/// The keys of a mapping's entries, in order.
pub open spec fn entry_keys<T>(o: Object<T>) -> Seq<Seq<char>> {
    o.entries@.map_values(|e: (String, Annotated<T>)| e.0@)
}

/// The diagnostics tree of a mapping with diagnostics `meta`: the record and, under its key,
/// the tree of each entry that carries diagnostics.
pub fn entries_meta_tree<T: ToValue>(meta: &Meta, o: &Object<T>) -> (r: MetaTree)
    ensures
        r.meta@ == meta@,
        kept_children::<T>(entry_values(*o), entry_keys(*o), r.children@),
        tree_is_sparse(r),
        tree_is_empty(r) <==> (meta_is_empty(*meta) && !exists|i: int|
            0 <= i < o.entries@.len() && T::has_diagnostics(#[trigger] o.entries@[i].1)),
{
    let mut tree = MetaTree { meta: meta.duplicate(), children: Vec::new() };
    let ghost items = entry_values(*o);
    let ghost keys = entry_keys(*o);
    let ghost flags = item_flags::<T>(items);
    let ghost mut idx: Seq<int> = Seq::empty();
    proof {
        assert(flags.take(0) =~= Seq::<bool>::empty());
    }
    let mut i: usize = 0;
    while i < o.entries.len()
        invariant
            items == entry_values(*o),
            keys == entry_keys(*o),
            flags == item_flags::<T>(items),
            i <= items.len(),
            tree.meta@ == meta@,
            forall|j: int| 0 <= j < idx.len() ==> #[trigger] idx[j] < i,
            index_shape(flags.take(i as int), keys, tree.children@, idx),
            forall|j: int|
                0 <= j < idx.len() ==> T::is_meta_tree_of(items[idx[j]], #[trigger] tree.children@[j].1),
            forall|j: int|
                0 <= j < tree.children@.len() ==> !tree_is_empty(#[trigger] tree.children@[j].1)
                    && tree_is_sparse(tree.children@[j].1),
            forall|j: int| 0 <= j < idx.len() ==> flags[#[trigger] idx[j]],
        decreases items.len() - i,
    {
        let ghost idx0 = idx;
        let ghost children0 = tree.children@;
        let child = T::extract_meta_tree(&o.entries[i].1);
        if !child.is_empty() {
            let key = o.entries[i].0.clone();
            proof {
                idx = idx.push(i as int);
            }
            tree.children.push((key, child));
        }
        proof {
            assert(tree.children@.len() > children0.len() ==> tree.children@.drop_last() =~= children0);
            lemma_index_shape_step(flags, keys, children0, idx0, tree.children@, idx, i as int);
            assert forall|j: int| 0 <= j < idx.len() implies T::is_meta_tree_of(
                items[idx[j]],
                #[trigger] tree.children@[j].1,
            ) by {
                if j < idx0.len() {
                    assert(tree.children@[j] == children0[j]);
                }
            }
        }
        i = i + 1;
    }
    proof {
        assert(flags.take(flags.len() as int) =~= flags);
        assert(kept_at::<T>(items, keys, tree.children@, idx));
        if tree.children@.len() > 0 {
            assert(flags[idx[0]]);
        }
        if exists|i: int| 0 <= i < o.entries@.len() && T::has_diagnostics(#[trigger] o.entries@[i].1) {
            let k = choose|k: int| 0 <= k < o.entries@.len() && T::has_diagnostics(#[trigger] o.entries@[k].1);
            assert(items[k] == o.entries@[k].1);
            assert(flags[k]);
            assert(exists|j: int| 0 <= j < idx.len() && idx[j] == k);
        }
    }
    tree
}

impl<T: FromValue> FromValue for Object<T> {
    open spec fn accepts(v: Value) -> bool {
        v is Object
    }

    open spec fn parses_to(value: Annotated<Value>, r: Annotated<Self>) -> bool {
        match value.0 {
            Some(Value::Object(o)) => {
                &&& r.1 == value.1
                &&& r.0 matches Some(out)
                &&& out.entries@.len() == o.entries@.len()
                &&& forall|i: int|
                    0 <= i < o.entries@.len() ==> (#[trigger] out.entries@[i]).0 == o.entries@[i].0
                        && T::parses_to(o.entries@[i].1, out.entries@[i].1)
            },
            None | Some(Value::Null) => absent_as_given(value, r),
            _ => absent_with_error(value, r, "expected object"@),
        }
    }

    /// Keys that were unique stay unique.
    fn from_value(value: Annotated<Value>) -> (r: Annotated<Self>)
        ensures
            (value.0 is Some && value.0->0 is Object && value.0->0->Object_0.wf()) ==> (r.0 is Some
                && r.0->0.wf()),
    {
        match value {
            Annotated(Some(Value::Object(o)), meta) => {
                let ghost orig = o.entries@;
                let mut rest = reversed(o.entries);
                let mut out: Vec<(String, Annotated<T>)> = Vec::new();
                while rest.len() > 0
                    invariant
                        rest@.len() + out@.len() == orig.len(),
                        forall|j: int|
                            0 <= j < rest@.len() ==> rest@[j] == orig[orig.len() - 1 - j],
                        forall|i: int|
                            0 <= i < out@.len() ==> (#[trigger] out@[i]).0 == orig[i].0
                                && T::parses_to(orig[i].1, out@[i].1),
                    decreases rest@.len(),
                {
                    let (key, item) = rest.pop().unwrap();
                    out.push((key, T::from_value(item)));
                }
                let out = Object { entries: out };
                proof {
                    if o.wf() {
                        assert forall|x: int, y: int|
                            0 <= x < y < out.entries@.len() implies #[trigger] key_at(out, x)
                            != #[trigger] key_at(out, y) by {
                            assert(key_at(out, x) == key_at(o, x));
                            assert(key_at(out, y) == key_at(o, y));
                        }
                    }
                }
                Annotated(Some(out), meta)
            },
            Annotated(Some(Value::Null), meta) => Annotated(None, meta),
            Annotated(None, meta) => Annotated(None, meta),
            Annotated(_, meta) => reject(meta, "expected object"),
        }
    }
}

impl<T: ToValue> ToValue for Object<T> {
    open spec fn serializes_to(value: Annotated<Self>, r: Annotated<Value>) -> bool {
        &&& r.1 == value.1
        &&& match value.0 {
            Some(o) => {
                &&& r.0 matches Some(Value::Object(out))
                &&& out.entries@.len() == o.entries@.len()
                &&& forall|i: int|
                    0 <= i < o.entries@.len() ==> (#[trigger] out.entries@[i]).0 == o.entries@[i].0
                        && T::serializes_to(o.entries@[i].1, out.entries@[i].1)
            },
            None => r.0 is None,
        }
    }

    open spec fn has_diagnostics(value: Annotated<Self>) -> bool {
        ||| !meta_is_empty(value.1)
        ||| (value.0 matches Some(o) && exists|i: int|
            0 <= i < o.entries@.len() && T::has_diagnostics(#[trigger] o.entries@[i].1))
    }

    open spec fn is_meta_tree_of(value: Annotated<Self>, t: MetaTree) -> bool {
        &&& t.meta@ == value.1@
        &&& match value.0 {
            Some(o) => kept_children::<T>(entry_values(o), entry_keys(o), t.children@),
            None => t.children@.len() == 0,
        }
    }

    fn to_value(value: Annotated<Self>) -> (r: Annotated<Value>) {
        match value {
            Annotated(Some(o), meta) => {
                let ghost orig = o.entries@;
                let mut rest = reversed(o.entries);
                let mut out: Vec<(String, Annotated<Value>)> = Vec::new();
                while rest.len() > 0
                    invariant
                        rest@.len() + out@.len() == orig.len(),
                        forall|j: int|
                            0 <= j < rest@.len() ==> rest@[j] == orig[orig.len() - 1 - j],
                        forall|i: int|
                            0 <= i < out@.len() ==> (#[trigger] out@[i]).0 == orig[i].0
                                && T::serializes_to(orig[i].1, out@[i].1),
                    decreases rest@.len(),
                {
                    let (key, item) = rest.pop().unwrap();
                    out.push((key, T::to_value(item)));
                }
                Annotated(Some(Value::Object(Object { entries: out })), meta)
            },
            Annotated(None, meta) => Annotated(None, meta),
        }
    }

    fn extract_meta_tree(value: &Annotated<Self>) -> (r: MetaTree) {
        match &value.0 {
            Some(o) => entries_meta_tree(&value.1, o),
            None => leaf_tree(&value.1),
        }
    }
}


/// One child visited: the shape over children `0..i` extends to `0..i + 1`, given that the
/// child got an entry, under its key, exactly when it is flagged.
pub proof fn lemma_index_shape_step(
    diag: Seq<bool>,
    keys: Seq<Seq<char>>,
    children0: Seq<(String, MetaTree)>,
    idx0: Seq<int>,
    children: Seq<(String, MetaTree)>,
    idx: Seq<int>,
    i: int,
)
    requires
        0 <= i < diag.len(),
        index_shape(diag.take(i), keys, children0, idx0),
        forall|j: int| 0 <= j < idx0.len() ==> #[trigger] idx0[j] < i,
        diag[i] ==> idx == idx0.push(i) && children.len() == children0.len() + 1
            && children.drop_last() == children0 && children.last().0@ == keys[i],
        !diag[i] ==> idx == idx0 && children == children0,
    ensures
        index_shape(diag.take(i + 1), keys, children, idx),
        forall|j: int| 0 <= j < idx.len() ==> #[trigger] idx[j] < i + 1,
{
    let prefix = diag.take(i + 1);
    assert forall|j: int| 0 <= j < idx.len() implies 0 <= #[trigger] idx[j] < prefix.len()
        && children[j].0@ == keys[idx[j]] by {
        if j < idx0.len() {
            assert(children[j] == children0[j]);
        }
    }
    assert forall|k: int| 0 <= k < prefix.len() && #[trigger] prefix[k] implies exists|j: int|
        0 <= j < idx.len() && idx[j] == k by {
        if k < i {
            assert(diag.take(i)[k] == prefix[k]);
            let j0 = choose|j0: int| 0 <= j0 < idx0.len() && idx0[j0] == k;
            assert(idx[j0] == k);
        } else {
            assert(idx[idx.len() - 1] == k);
        }
    }
}

/// Whether the value or anything inside it carries diagnostics.
pub open spec fn value_has_diagnostics(v: Annotated<Value>) -> bool
    decreases v,
{
    ||| !meta_is_empty(v.1)
    ||| match v.0 {
        Some(Value::Array(items)) => exists|i: int|
            0 <= i < items@.len() && value_has_diagnostics(#[trigger] items@[i]),
        Some(Value::Object(o)) => exists|i: int|
            0 <= i < o.entries@.len() && value_has_diagnostics(#[trigger] o.entries@[i].1),
        _ => false,
    }
}

/// `children` picks, in order and under their keys, exactly the elements flagged in `diag`;
/// `idx` gives the element of each child.
pub open spec fn index_shape(
    diag: Seq<bool>,
    keys: Seq<Seq<char>>,
    children: Seq<(String, MetaTree)>,
    idx: Seq<int>,
) -> bool {
    &&& idx.len() == children.len()
    &&& forall|j: int|
        0 <= j < idx.len() ==> 0 <= #[trigger] idx[j] < diag.len() && children[j].0@ == keys[idx[j]]
    &&& forall|j: int, k: int| 0 <= j < k < idx.len() ==> #[trigger] idx[j] < #[trigger] idx[k]
    &&& forall|i: int|
        0 <= i < diag.len() && #[trigger] diag[i] ==> exists|j: int| 0 <= j < idx.len() && idx[j] == i
}

/// Which elements of a sequence carry diagnostics.
pub open spec fn item_diagnostics(items: Seq<Annotated<Value>>) -> Seq<bool> {
    Seq::new(items.len(), |i: int| value_has_diagnostics(items[i]))
}

/// `t` is the sparse diagnostics tree of `v`: its own record and, under the key or index of
/// each child that carries diagnostics, that child's tree.
pub open spec fn value_meta_tree_rel(v: Annotated<Value>, t: MetaTree) -> bool
    decreases v,
{
    &&& t.meta@ == v.1@
    &&& match v.0 {
        Some(Value::Array(items)) => exists|idx: Seq<int>|
            index_shape(item_diagnostics(items@), index_keys(items@.len()), t.children@, idx)
                && forall|j: int|
                0 <= j < idx.len() && 0 <= idx[j] < items@.len() ==> value_meta_tree_rel(
                    items@[idx[j]],
                    #[trigger] t.children@[j].1,
                ),
        Some(Value::Object(o)) => exists|idx: Seq<int>|
            index_shape(item_diagnostics(entry_values(o)), entry_keys(o), t.children@, idx)
                && forall|j: int|
                0 <= j < idx.len() && 0 <= idx[j] < o.entries@.len() ==> value_meta_tree_rel(
                    o.entries@[idx[j]].1,
                    #[trigger] t.children@[j].1,
                ),
        _ => t.children@.len() == 0,
    }
}

fn value_meta_tree(value: &Annotated<Value>) -> (r: MetaTree)
    ensures
        value_meta_tree_rel(*value, r),
        r.meta@ == value.1@,
        tree_is_sparse(r),
        tree_is_empty(r) <==> !value_has_diagnostics(*value),
    decreases value,
{
    let mut tree = MetaTree { meta: value.1.duplicate(), children: Vec::new() };
    match &value.0 {
        Some(Value::Array(items)) => {
            let ghost diag = item_diagnostics(items@);
            let ghost keys = index_keys(items@.len());
            let ghost mut idx: Seq<int> = Seq::empty();
            let mut i: usize = 0;
            while i < items.len()
                invariant
                    value.0 == Some(Value::Array(*items)),
                    diag == item_diagnostics(items@),
                    keys == index_keys(items@.len()),
                    i <= items@.len(),
                    tree.meta@ == value.1@,
                    forall|j: int| 0 <= j < idx.len() ==> #[trigger] idx[j] < i,
                    index_shape(diag.take(i as int), keys, tree.children@, idx),
                    forall|j: int|
                        0 <= j < idx.len() && 0 <= idx[j] < items@.len() ==> value_meta_tree_rel(
                            items@[idx[j]],
                            #[trigger] tree.children@[j].1,
                        ),
                    forall|j: int|
                        0 <= j < tree.children@.len() ==> !tree_is_empty(#[trigger] tree.children@[j].1)
                            && tree_is_sparse(tree.children@[j].1),
                    forall|j: int| 0 <= j < idx.len() ==> diag[#[trigger] idx[j]],
                decreases items@.len() - i,
            {
                let ghost idx0 = idx;
                proof {
                    vstd::std_specs::vec::axiom_vec_index_decreases(*items, i as int);
                    assert(decreases_to!(*value => value.0));
                    assert(decreases_to!(value.0 => value.0->0));
                    assert(decreases_to!(value.0->0 => (value.0->0)->Array_0));
                    assert(decreases_to!(*value => items[i as int]));
                }
                let ghost children0 = tree.children@;
                let child = value_meta_tree(&items[i]);
                if !child.is_empty() {
                    let key = index_key(i);
                    proof {
                        idx = idx.push(i as int);
                    }
                    tree.children.push((key, child));
                }
                proof {
                    assert(tree.children@.len() > children0.len() ==> tree.children@.drop_last()
                        =~= children0);
                    lemma_index_shape_step(diag, keys, children0, idx0, tree.children@, idx, i as int);
                }
                i = i + 1;
            }
            proof {
                assert(diag.take(diag.len() as int) =~= diag);
                if tree.children@.len() > 0 {
                    assert(diag[idx[0]]);
                }
                if value_has_diagnostics(*value) && meta_is_empty(value.1) {
                    let k = choose|k: int| 0 <= k < items@.len() && value_has_diagnostics(#[trigger] items@[k]);
                    assert(diag[k]);
                    assert(exists|j: int| 0 <= j < idx.len() && idx[j] == k);
                }
            }
        },
        Some(Value::Object(o)) => {
            let ghost diag = item_diagnostics(entry_values(*o));
            let ghost keys = entry_keys(*o);
            let ghost mut idx: Seq<int> = Seq::empty();
            let mut i: usize = 0;
            while i < o.entries.len()
                invariant
                    value.0 == Some(Value::Object(*o)),
                    diag == item_diagnostics(entry_values(*o)),
                    keys == entry_keys(*o),
                    i <= o.entries@.len(),
                    tree.meta@ == value.1@,
                    forall|j: int| 0 <= j < idx.len() ==> #[trigger] idx[j] < i,
                    index_shape(diag.take(i as int), keys, tree.children@, idx),
                    forall|j: int|
                        0 <= j < idx.len() && 0 <= idx[j] < o.entries@.len() ==> value_meta_tree_rel(
                            o.entries@[idx[j]].1,
                            #[trigger] tree.children@[j].1,
                        ),
                    forall|j: int|
                        0 <= j < tree.children@.len() ==> !tree_is_empty(#[trigger] tree.children@[j].1)
                            && tree_is_sparse(tree.children@[j].1),
                    forall|j: int| 0 <= j < idx.len() ==> diag[#[trigger] idx[j]],
                decreases o.entries@.len() - i,
            {
                let ghost idx0 = idx;
                proof {
                    vstd::std_specs::vec::axiom_vec_index_decreases(o.entries, i as int);
                    assert(decreases_to!(*value => value.0));
                    assert(decreases_to!(value.0 => value.0->0));
                    assert(decreases_to!(value.0->0 => (value.0->0)->Object_0));
                    assert(decreases_to!(*o => o.entries));
                    assert(decreases_to!(o.entries[i as int] => o.entries[i as int].1));
                    assert(decreases_to!(*value => o.entries[i as int].1));
                }
                let ghost children0 = tree.children@;
                let child = value_meta_tree(&o.entries[i].1);
                if !child.is_empty() {
                    let key = o.entries[i].0.clone();
                    proof {
                        idx = idx.push(i as int);
                    }
                    tree.children.push((key, child));
                }
                proof {
                    assert(tree.children@.len() > children0.len() ==> tree.children@.drop_last()
                        =~= children0);
                    lemma_index_shape_step(diag, keys, children0, idx0, tree.children@, idx, i as int);
                }
                i = i + 1;
            }
            proof {
                assert(diag.take(diag.len() as int) =~= diag);
                if tree.children@.len() > 0 {
                    assert(diag[idx[0]]);
                }
                if value_has_diagnostics(*value) && meta_is_empty(value.1) {
                    let k = choose|k: int| 0 <= k < o.entries@.len() && value_has_diagnostics(#[trigger] o.entries@[k].1);
                    assert(diag[k]);
                    assert(exists|j: int| 0 <= j < idx.len() && idx[j] == k);
                }
            }
        },
        _ => {},
    }
    tree
}

impl FromValue for Value {
    open spec fn accepts(v: Value) -> bool {
        true
    }

    open spec fn parses_to(value: Annotated<Value>, r: Annotated<Self>) -> bool {
        r == value
    }

    fn from_value(value: Annotated<Value>) -> (r: Annotated<Value>) {
        value
    }
}

impl ToValue for Value {
    open spec fn serializes_to(value: Annotated<Self>, r: Annotated<Value>) -> bool {
        r == value
    }

    open spec fn has_diagnostics(value: Annotated<Self>) -> bool {
        value_has_diagnostics(value)
    }

    open spec fn is_meta_tree_of(value: Annotated<Self>, t: MetaTree) -> bool {
        value_meta_tree_rel(value, t)
    }

    fn to_value(value: Annotated<Value>) -> (r: Annotated<Value>) {
        value
    }

    fn extract_meta_tree(value: &Annotated<Value>) -> (r: MetaTree) {
        value_meta_tree(value)
    }
}


/// The result holds the point `n` nanoseconds after the epoch, with the diagnostics unchanged.
pub open spec fn present_at(value: Annotated<Value>, r: Annotated<Timestamp>, n: int) -> bool {
    r.0 matches Some(t) && t@ == n && r.1 == value.1
}

/// What a whole number of seconds gives: that point, or an out-of-range error.
pub open spec fn seconds_outcome(value: Annotated<Value>, r: Annotated<Timestamp>, secs: int) -> bool {
    if MIN_SECS <= secs <= MAX_SECS {
        present_at(value, r, secs * NANOS_PER_SEC)
    } else {
        absent_with_error(value, r, out_of_range_message())
    }
}

/// The seconds and microseconds of a point, as a number with six decimals.
pub open spec fn timestamp_float(t: Timestamp) -> Float {
    Float {
        significand: ((t@ / NANOS_PER_SEC as int) * 1_000_000 + (t@ % NANOS_PER_SEC as int) / 1000) as i64,
        exponent: -6i32,
    }
}

impl FromValue for Timestamp {
    open spec fn accepts(v: Value) -> bool {
        v is String || v is U64 || v is I64 || v is F64
    }

    open spec fn parses_to(value: Annotated<Value>, r: Annotated<Self>) -> bool {
        match value.0 {
            Some(Value::String(s)) => match datetime_text_result(s@) {
                Ok(n) => present_at(value, r, n),
                Err(m) => absent_with_error(value, r, m),
            },
            Some(Value::U64(x)) => seconds_outcome(value, r, x as int),
            Some(Value::I64(x)) => seconds_outcome(value, r, x as int),
            Some(Value::F64(f)) => if in_range(float_nanos(f)) {
                present_at(value, r, float_nanos(f))
            } else {
                absent_with_error(value, r, out_of_range_message())
            },
            None | Some(Value::Null) => absent_as_given(value, r),
            _ => absent_with_error(value, r, "expected timestamp"@),
        }
    }

    fn from_value(value: Annotated<Value>) -> (r: Annotated<Self>) {
        match value {
            Annotated(Some(Value::String(s)), mut meta) => match Timestamp::parse(s.as_str()) {
                Ok(t) => Annotated(Some(t), meta),
                Err(e) => {
                    meta.add_error(e);
                    Annotated(None, meta)
                },
            },
            Annotated(Some(Value::U64(x)), mut meta) => {
                let t = if x <= i64::MAX as u64 {
                    Timestamp::from_unix(x as i64, 0)
                } else {
                    None
                };
                match t {
                    Some(t) => Annotated(Some(t), meta),
                    None => {
                        meta.add_error(out_of_range_error());
                        Annotated(None, meta)
                    },
                }
            },
            Annotated(Some(Value::I64(x)), mut meta) => match Timestamp::from_unix(x, 0) {
                Some(t) => Annotated(Some(t), meta),
                None => {
                    meta.add_error(out_of_range_error());
                    Annotated(None, meta)
                },
            },
            Annotated(Some(Value::F64(f)), mut meta) => match Timestamp::from_float(f) {
                Some(t) => Annotated(Some(t), meta),
                None => {
                    meta.add_error(out_of_range_error());
                    Annotated(None, meta)
                },
            },
            Annotated(Some(Value::Null), meta) => Annotated(None, meta),
            Annotated(None, meta) => Annotated(None, meta),
            Annotated(_, meta) => reject(meta, "expected timestamp"),
        }
    }
}

impl ToValue for Timestamp {
    open spec fn serializes_to(value: Annotated<Self>, r: Annotated<Value>) -> bool {
        r.1 == value.1 && match value.0 {
            Some(t) => r.0 == Some(Value::F64(timestamp_float(t))),
            None => r.0 is None,
        }
    }

    open spec fn has_diagnostics(value: Annotated<Self>) -> bool {
        !meta_is_empty(value.1)
    }

    open spec fn is_meta_tree_of(value: Annotated<Self>, t: MetaTree) -> bool {
        leaf_meta_tree(value.1, t)
    }

    fn to_value(value: Annotated<Self>) -> (r: Annotated<Value>) {
        match value {
            Annotated(Some(t), meta) => Annotated(Some(Value::F64(t.to_float())), meta),
            Annotated(None, meta) => Annotated(None, meta),
        }
    }

    fn extract_meta_tree(value: &Annotated<Self>) -> (r: MetaTree) {
        leaf_tree(&value.1)
    }
}

impl FromValue for Uuid {
    open spec fn accepts(v: Value) -> bool {
        v is String
    }

    open spec fn parses_to(value: Annotated<Value>, r: Annotated<Self>) -> bool {
        match value.0 {
            Some(Value::String(s)) => match uuid_of(s@) {
                Some(v) => r.0 == Some(Uuid(v)) && r.1 == value.1,
                None => absent_with_error(value, r, "expected a uuid"@),
            },
            None | Some(Value::Null) => absent_as_given(value, r),
            _ => absent_with_error(value, r, "expected a uuid"@),
        }
    }

    fn from_value(value: Annotated<Value>) -> (r: Annotated<Self>) {
        match value {
            Annotated(Some(Value::String(s)), meta) => match Uuid::parse(s.as_str()) {
                Some(u) => Annotated(Some(u), meta),
                None => reject(meta, "expected a uuid"),
            },
            Annotated(Some(Value::Null), meta) => Annotated(None, meta),
            Annotated(None, meta) => Annotated(None, meta),
            Annotated(_, meta) => reject(meta, "expected a uuid"),
        }
    }
}

impl ToValue for Uuid {
    open spec fn serializes_to(value: Annotated<Self>, r: Annotated<Value>) -> bool {
        &&& r.1 == value.1
        &&& match value.0 {
            Some(u) => r.0 matches Some(Value::String(s)) && s@ == uuid_text(u.0),
            None => r.0 is None,
        }
    }

    open spec fn has_diagnostics(value: Annotated<Self>) -> bool {
        !meta_is_empty(value.1)
    }

    open spec fn is_meta_tree_of(value: Annotated<Self>, t: MetaTree) -> bool {
        leaf_meta_tree(value.1, t)
    }

    fn to_value(value: Annotated<Self>) -> (r: Annotated<Value>) {
        match value {
            Annotated(Some(u), meta) => Annotated(Some(Value::String(u.to_text())), meta),
            Annotated(None, meta) => Annotated(None, meta),
        }
    }

    fn extract_meta_tree(value: &Annotated<Self>) -> (r: MetaTree) {
        leaf_tree(&value.1)
    }
}

/// Whether an entry is left out of the output: no value and no diagnostics.
pub open spec fn skipped(a: Annotated<Value>) -> bool {
    a.0 is None && meta_is_empty(a.1)
}

/// `out` keeps, in order and under their keys, exactly the entries of `entries` that are
/// not skipped; `idx` gives the entry of each kept one.
pub open spec fn kept_entries(
    entries: Seq<(String, Annotated<Value>)>,
    out: Seq<(String, Annotated<Value>)>,
    idx: Seq<int>,
) -> bool {
    &&& idx.len() == out.len()
    &&& forall|j: int|
        0 <= j < idx.len() ==> 0 <= #[trigger] idx[j] < entries.len() && out[j].0 == entries[idx[j]].0
            && !skipped(entries[idx[j]].1)
    &&& forall|j: int, k: int| 0 <= j < k < idx.len() ==> #[trigger] idx[j] < #[trigger] idx[k]
    &&& forall|i: int|
        0 <= i < entries.len() && !skipped(#[trigger] entries[i].1) ==> exists|j: int|
            0 <= j < idx.len() && idx[j] == i
}

/// A slot of the output: present, without diagnostics.
pub open spec fn bare(a: Annotated<Value>) -> bool {
    a.0 is Some && meta_is_empty(a.1)
}

/// `r` is the output form of `v`: an absent value is null, diagnostics are dropped, and
/// mapping entries with neither value nor diagnostics are left out, at every depth.
pub open spec fn payload_of(v: Annotated<Value>, r: Value) -> bool
    decreases v,
{
    match v.0 {
        None => r == Value::Null,
        Some(Value::Array(items)) => {
            &&& r is Array
            &&& r->Array_0@.len() == items@.len()
            &&& forall|i: int|
                0 <= i < items@.len() ==> bare(#[trigger] r->Array_0@[i]) && payload_of(
                    items@[i],
                    r->Array_0@[i].0->0,
                )
        },
        Some(Value::Object(o)) => {
            &&& r is Object
            &&& exists|idx: Seq<int>|
                kept_entries(o.entries@, r->Object_0.entries@, idx) && forall|j: int|
                    0 <= j < idx.len() && 0 <= idx[j] < o.entries@.len() ==> bare(
                        #[trigger] r->Object_0.entries@[j].1,
                    ) && payload_of(o.entries@[idx[j]].1, r->Object_0.entries@[j].1.0->0)
        },
        Some(other) => r == other,
    }
}

/// The output form of a value: an absent value becomes null, diagnostics are dropped, and
/// mapping entries whose value and diagnostics are both empty are left out, at every depth.
pub fn to_payload(value: &Annotated<Value>) -> (r: Value)
    ensures
        payload_of(*value, r),
    decreases value,
{
    match &value.0 {
        None => Value::Null,
        Some(Value::Null) => Value::Null,
        Some(Value::Bool(b)) => Value::Bool(*b),
        Some(Value::U64(n)) => Value::U64(*n),
        Some(Value::I64(n)) => Value::I64(*n),
        Some(Value::F64(f)) => Value::F64(*f),
        Some(Value::String(t)) => Value::String(t.clone()),
        Some(Value::Array(items)) => {
            let mut out: Vec<Annotated<Value>> = Vec::new();
            let mut i: usize = 0;
            while i < items.len()
                invariant
                    value.0 == Some(Value::Array(*items)),
                    i <= items@.len(),
                    out@.len() == i,
                    forall|k: int|
                        0 <= k < i ==> bare(#[trigger] out@[k]) && payload_of(items@[k], out@[k].0->0),
                decreases items@.len() - i,
            {
                proof {
                    vstd::std_specs::vec::axiom_vec_index_decreases(*items, i as int);
                    assert(decreases_to!(*value => value.0));
                    assert(decreases_to!(value.0 => value.0->0));
                    assert(decreases_to!(value.0->0 => (value.0->0)->Array_0));
                }
                let p = to_payload(&items[i]);
                out.push(Annotated(Some(p), Meta::new()));
                i = i + 1;
            }
            let r = Value::Array(out);
            proof {
                assert(r->Array_0@ == out@);
            }
            r
        },
        Some(Value::Object(o)) => {
            let mut out: Vec<(String, Annotated<Value>)> = Vec::new();
            let ghost mut idx: Seq<int> = Seq::empty();
            let ghost entries = o.entries@;
            let mut i: usize = 0;
            while i < o.entries.len()
                invariant
                    value.0 == Some(Value::Object(*o)),
                    entries == o.entries@,
                    i <= entries.len(),
                    forall|j: int| 0 <= j < idx.len() ==> #[trigger] idx[j] < i,
                    kept_entries(entries.take(i as int), out@, idx),
                    forall|j: int|
                        0 <= j < idx.len() && 0 <= idx[j] < entries.len() ==> bare(#[trigger] out@[j].1)
                            && payload_of(entries[idx[j]].1, out@[j].1.0->0),
                decreases entries.len() - i,
            {
                let ghost idx0 = idx;
                if !o.entries[i].1.skip_serialization() {
                    proof {
                        vstd::std_specs::vec::axiom_vec_index_decreases(o.entries, i as int);
                        assert(decreases_to!(*value => value.0));
                        assert(decreases_to!(value.0 => value.0->0));
                        assert(decreases_to!(value.0->0 => (value.0->0)->Object_0));
                        assert(decreases_to!(*o => o.entries));
                        assert(decreases_to!(o.entries[i as int] => o.entries[i as int].1));
                    }
                    let p = to_payload(&o.entries[i].1);
                    let key = o.entries[i].0.clone();
                    proof {
                        idx = idx.push(i as int);
                    }
                    out.push((key, Annotated(Some(p), Meta::new())));
                }
                proof {
                    let prefix = entries.take(i as int + 1);
                    assert(prefix[i as int] == entries[i as int]);
                    assert forall|k: int|
                        0 <= k < prefix.len() && !skipped(#[trigger] prefix[k].1) implies exists|j: int|
                            0 <= j < idx.len() && idx[j] == k by {
                        if k < i {
                            assert(entries.take(i as int)[k] == prefix[k]);
                            let j0 = choose|j0: int| 0 <= j0 < idx0.len() && idx0[j0] == k;
                            assert(idx[j0] == k);
                        } else {
                            assert(idx[idx.len() - 1] == k);
                        }
                    }
                    assert forall|j: int| 0 <= j < idx.len() implies 0 <= #[trigger] idx[j] < prefix.len()
                        && out@[j].0 == prefix[idx[j]].0 && !skipped(prefix[idx[j]].1) by {
                        if j < idx0.len() {
                            assert(entries.take(i as int)[idx[j]] == entries[idx[j]]);
                        }
                    }
                }
                i = i + 1;
            }
            proof {
                assert(entries.take(entries.len() as int) =~= entries);
            }
            let r = Value::Object(Object { entries: out });
            proof {
                assert(r->Object_0.entries@ == out@);
                assert(kept_entries(o.entries@, r->Object_0.entries@, idx));
            }
            r
        },
    }
}

/// `a` is what a structure reads for the field `key` of the mapping: the value of the first
/// entry under that key, or an absent value without diagnostics where there is none.
pub open spec fn field_value(o: Object<Value>, key: Seq<char>, a: Annotated<Value>) -> bool {
    match first_key_index(o, key) {
        Some(i) => a == o.entries@[i].1,
        None => a.0 is None && meta_is_empty(a.1),
    }
}

/// `a` is what parsing makes of the field `key` of the mapping.
pub open spec fn field_parsed<T: FromValue>(o: Object<Value>, key: Seq<char>, a: Annotated<T>) -> bool {
    match first_key_index(o, key) {
        Some(i) => T::parses_to(o.entries@[i].1, a),
        None => a.0 is None && meta_is_empty(a.1),
    }
}

/// Parses a field value, as `field_parsed` describes.
pub(crate) fn parse_field<T: FromValue>(
    value: Annotated<Value>,
    Ghost(o): Ghost<Object<Value>>,
    Ghost(key): Ghost<Seq<char>>,
) -> (r: Annotated<T>)
    requires
        field_value(o, key, value),
    ensures
        field_parsed::<T>(o, key, r),
{
    T::from_value(value)
}

/// The position of `key` among `names`, if it is one of them.
fn name_index(names: &Vec<&str>, key: &str) -> (r: Option<usize>)
    ensures
        match r {
            Some(g) => g < names@.len() && names@[g as int]@ == key@,
            None => forall|g: int| 0 <= g < names@.len() ==> names@[g]@ != key@,
        },
{
    let mut g: usize = 0;
    while g < names.len()
        invariant
            g <= names@.len(),
            forall|h: int| 0 <= h < g ==> names@[h]@ != key@,
        decreases names@.len() - g,
    {
        if str_eq(names[g], key) {
            return Some(g);
        }
        g = g + 1;
    }
    None
}

/// Splits a mapping into the values of the named fields, in the order of `names`; entries
/// under other keys, and later entries under a key already taken, are dropped.
pub fn split_fields(o: Object<Value>, names: &Vec<&str>) -> (r: Vec<Annotated<Value>>)
    requires
        forall|a: int, b: int| 0 <= a < b < names@.len() ==> names@[a]@ != names@[b]@,
    ensures
        r@.len() == names@.len(),
        forall|f: int| 0 <= f < names@.len() ==> field_value(o, names@[f]@, #[trigger] r@[f]),
{
    let ghost orig = o;
    let ghost n = o.entries@.len() as int;
    let mut slots: Vec<Annotated<Value>> = Vec::new();
    let mut seen: Vec<bool> = Vec::new();
    let mut f: usize = 0;
    while f < names.len()
        invariant
            f <= names@.len(),
            slots@.len() == f,
            seen@.len() == f,
            forall|h: int| 0 <= h < f ==> !(#[trigger] seen@[h]),
            forall|h: int| 0 <= h < f ==> (#[trigger] slots@[h]).0 is None && meta_is_empty(slots@[h].1),
        decreases names@.len() - f,
    {
        slots.push(Annotated::empty());
        seen.push(false);
        f = f + 1;
    }
    let ghost mut at: Seq<int> = Seq::new(names@.len(), |h: int| 0int);
    let mut rest = reversed(o.entries);
    let ghost mut k: int = 0;
    while rest.len() > 0
        invariant
            rest@.len() + k == n,
            0 <= k,
            n == orig.entries@.len(),
            forall|j: int| 0 <= j < rest@.len() ==> rest@[j] == orig.entries@[n - 1 - j],
            forall|a: int, b: int| 0 <= a < b < names@.len() ==> names@[a]@ != names@[b]@,
            slots@.len() == names@.len(),
            seen@.len() == names@.len(),
            at.len() == names@.len(),
            forall|h: int|
                0 <= h < names@.len() && #[trigger] seen@[h] ==> 0 <= at[h] < k && is_first_key(
                    orig,
                    names@[h]@,
                    at[h],
                ) && slots@[h] == orig.entries@[at[h]].1,
            forall|h: int|
                0 <= h < names@.len() && !(#[trigger] seen@[h]) ==> (forall|j: int|
                    0 <= j < k ==> key_at(orig, j) != names@[h]@) && slots@[h].0 is None
                    && meta_is_empty(slots@[h].1),
        decreases rest@.len(),
    {
        proof {
            assert(k < n);
        }
        let (key, val) = rest.pop().unwrap();
        let ghost seen0 = seen@;
        let ghost slots0 = slots@;
        let ghost at0 = at;
        proof {
            assert((key, val) == orig.entries@[k]);
            assert(key_at(orig, k) == key@);
        }
        let found = name_index(names, key.as_str());
        match found {
            Some(g) => {
                if !seen[g] {
                    slots.set(g, val);
                    seen.set(g, true);
                    proof {
                        at = at.update(g as int, k);
                    }
                }
            },
            None => {},
        }
        proof {
            assert forall|h: int| 0 <= h < names@.len() && #[trigger] seen@[h] implies 0 <= at[h]
                < k + 1 && is_first_key(orig, names@[h]@, at[h]) && slots@[h] == orig.entries@[at[h]].1 by {
                if seen0[h] {
                    assert(seen@[h] == seen0[h] && at[h] == at0[h] && slots@[h] == slots0[h]);
                } else {
                    assert(found == Some(h as usize));
                    assert(at[h] == k);
                    assert(slots@[h] == val);
                    assert(forall|j: int| 0 <= j < k ==> key_at(orig, j) != names@[h]@);
                    assert(is_first_key(orig, names@[h]@, k));
                }
            }
            assert forall|h: int| 0 <= h < names@.len() && !(#[trigger] seen@[h]) implies (forall|j: int|
                0 <= j < k + 1 ==> key_at(orig, j) != names@[h]@) && slots@[h].0 is None
                && meta_is_empty(slots@[h].1) by {
                assert(!seen0[h]);
                assert(slots@[h] == slots0[h]);
                match found {
                    Some(g) => {
                        assert(g as int != h);
                        if (g as int) < h {
                            assert(names@[g as int]@ != names@[h]@);
                        } else {
                            assert(names@[h]@ != names@[g as int]@);
                        }
                    },
                    None => {},
                }
            }
            k = k + 1;
        }
    }
    proof {
        assert forall|h: int| 0 <= h < names@.len() implies field_value(orig, names@[h]@, #[trigger] slots@[h]) by {
            if seen@[h] {
                lemma_first_key_index(orig, names@[h]@, at[h]);
            } else {
                assert(!orig.has_key(names@[h]@));
            }
        }
    }
    slots
}

/// Adds the diagnostics tree of field `k`, named `name`, to a structure's tree when it is
/// not empty, keeping `index_shape` over the fields so far; returns the updated positions.
pub fn add_field_tree<T: ToValue>(
    tree: &mut MetaTree,
    name: &str,
    field: &Annotated<T>,
    Ghost(diag): Ghost<Seq<bool>>,
    Ghost(names): Ghost<Seq<Seq<char>>>,
    Ghost(rel): Ghost<spec_fn(int, MetaTree) -> bool>,
    Ghost(k): Ghost<int>,
    Ghost(idx): Ghost<Seq<int>>,
) -> (new_idx: Ghost<Seq<int>>)
    requires
        0 <= k < diag.len(),
        names.len() == diag.len(),
        names[k] == name@,
        diag[k] == T::has_diagnostics(*field),
        forall|t: MetaTree| T::is_meta_tree_of(*field, t) ==> #[trigger] rel(k, t),
        index_shape(diag.take(k), names, old(tree).children@, idx),
        forall|j: int| 0 <= j < idx.len() ==> #[trigger] idx[j] < k,
        forall|j: int| 0 <= j < idx.len() ==> rel(idx[j], #[trigger] old(tree).children@[j].1),
        forall|j: int|
            0 <= j < old(tree).children@.len() ==> !tree_is_empty(#[trigger] old(tree).children@[j].1)
                && tree_is_sparse(old(tree).children@[j].1),
        forall|j: int| 0 <= j < idx.len() ==> diag[#[trigger] idx[j]],
    ensures
        final(tree).meta == old(tree).meta,
        index_shape(diag.take(k + 1), names, final(tree).children@, new_idx@),
        forall|j: int| 0 <= j < new_idx@.len() ==> #[trigger] new_idx@[j] < k + 1,
        forall|j: int| 0 <= j < new_idx@.len() ==> rel(new_idx@[j], #[trigger] final(tree).children@[j].1),
        forall|j: int|
            0 <= j < final(tree).children@.len() ==> !tree_is_empty(#[trigger] final(tree).children@[j].1)
                && tree_is_sparse(final(tree).children@[j].1),
        forall|j: int| 0 <= j < new_idx@.len() ==> diag[#[trigger] new_idx@[j]],
{
    let ghost children0 = tree.children@;
    let child = T::extract_meta_tree(field);
    let ghost mut out = idx;
    if !child.is_empty() {
        proof {
            assert(rel(k, child));
            out = idx.push(k);
        }
        tree.children.push((name.to_owned(), child));
    }
    proof {
        assert(tree.children@.len() > children0.len() ==> tree.children@.drop_last() =~= children0);
        lemma_index_shape_step(diag, names, children0, idx, tree.children@, out, k);
    }
    Ghost(out)
}

/// At the end of a structure's fields: its tree is empty exactly when nothing in it carries
/// diagnostics.
pub proof fn lemma_fields_tree_done(
    diag: Seq<bool>,
    names: Seq<Seq<char>>,
    children: Seq<(String, MetaTree)>,
    idx: Seq<int>,
)
    requires
        index_shape(diag.take(diag.len() as int), names, children, idx),
        forall|j: int| 0 <= j < idx.len() ==> diag[#[trigger] idx[j]],
    ensures
        index_shape(diag, names, children, idx),
        children.len() > 0 <==> exists|k: int| 0 <= k < diag.len() && #[trigger] diag[k],
{
    assert(diag.take(diag.len() as int) =~= diag);
    if children.len() > 0 {
        assert(diag[idx[0]]);
    }
    if exists|k: int| 0 <= k < diag.len() && #[trigger] diag[k] {
        let k = choose|k: int| 0 <= k < diag.len() && #[trigger] diag[k];
        assert(exists|j: int| 0 <= j < idx.len() && idx[j] == k);
    }
}

/// Parsing an explicit null into any primitive gives an absent value and adds no error.
pub proof fn null_parses_to_absent(
    meta: Meta,
    s: Annotated<String>,
    b: Annotated<bool>,
    u: Annotated<u64>,
    i: Annotated<i64>,
    f: Annotated<Float>,
    t: Annotated<Timestamp>,
)
    requires
        String::parses_to(Annotated(Some(Value::Null), meta), s),
        bool::parses_to(Annotated(Some(Value::Null), meta), b),
        u64::parses_to(Annotated(Some(Value::Null), meta), u),
        i64::parses_to(Annotated(Some(Value::Null), meta), i),
        Float::parses_to(Annotated(Some(Value::Null), meta), f),
        Timestamp::parses_to(Annotated(Some(Value::Null), meta), t),
    ensures
        s.0 is None && s.1 == meta,
        b.0 is None && b.1 == meta,
        u.0 is None && u.1 == meta,
        i.0 is None && i.1 == meta,
        f.0 is None && f.1 == meta,
        t.0 is None && t.1 == meta,
{
}

/// The diagnostics gained exactly one error and nothing else.
pub open spec fn one_more_error<T>(value: Annotated<Value>, r: Annotated<T>) -> bool {
    &&& r.0 is None
    &&& errors_of(r.1).len() == errors_of(value.1).len() + 1
    &&& errors_of(r.1).drop_last() == errors_of(value.1)
    &&& flags_of(r.1) == flags_of(value.1)
}

/// Parsing a non-null value of the wrong kind into a primitive gives an absent value with
/// exactly one more error.
pub proof fn mismatch_adds_one_error(
    value: Annotated<Value>,
    s: Annotated<String>,
    b: Annotated<bool>,
    u: Annotated<u64>,
    i: Annotated<i64>,
    f: Annotated<Float>,
    t: Annotated<Timestamp>,
)
    requires
        String::parses_to(value, s),
        bool::parses_to(value, b),
        u64::parses_to(value, u),
        i64::parses_to(value, i),
        Float::parses_to(value, f),
        Timestamp::parses_to(value, t),
        value.0 matches Some(v) && !(v is Null),
    ensures
        !(value.0->0 is String) ==> one_more_error(value, s),
        !(value.0->0 is Bool) ==> one_more_error(value, b),
        !(value.0->0 is U64) ==> one_more_error(value, u),
        !(value.0->0 is I64) ==> one_more_error(value, i),
        !(value.0->0 is F64) ==> one_more_error(value, f),
        !Timestamp::accepts(value.0->0) ==> one_more_error(value, t),
{
    let v = value.0->0;
    if !(v is String) {
        assert(errors_of(s.1).drop_last() =~= errors_of(value.1));
    }
    if !(v is Bool) {
        assert(errors_of(b.1).drop_last() =~= errors_of(value.1));
    }
    if !(v is U64) {
        assert(errors_of(u.1).drop_last() =~= errors_of(value.1));
    }
    if !(v is I64) {
        assert(errors_of(i.1).drop_last() =~= errors_of(value.1));
    }
    if !(v is F64) {
        assert(errors_of(f.1).drop_last() =~= errors_of(value.1));
    }
    if !Timestamp::accepts(v) {
        assert(errors_of(t.1).drop_last() =~= errors_of(value.1));
    }
}

/// A primitive that parses cleanly serializes back to the value it came from.
pub proof fn primitive_round_trip(
    value: Annotated<Value>,
    s: Annotated<String>,
    s2: Annotated<Value>,
    b: Annotated<bool>,
    b2: Annotated<Value>,
    u: Annotated<u64>,
    u2: Annotated<Value>,
    i: Annotated<i64>,
    i2: Annotated<Value>,
    f: Annotated<Float>,
    f2: Annotated<Value>,
)
    requires
        String::parses_to(value, s) && String::serializes_to(s, s2),
        bool::parses_to(value, b) && bool::serializes_to(b, b2),
        u64::parses_to(value, u) && u64::serializes_to(u, u2),
        i64::parses_to(value, i) && i64::serializes_to(i, i2),
        Float::parses_to(value, f) && Float::serializes_to(f, f2),
    ensures
        s.0 is Some ==> s2 == value,
        b.0 is Some ==> b2 == value,
        u.0 is Some ==> u2 == value,
        i.0 is Some ==> i2 == value,
        f.0 is Some ==> f2 == value,
{
}

/// The number that a point serializes to: its seconds with six decimals.
pub open spec fn micros_float(n: int) -> Value {
    Value::F64(
        Float {
            significand: ((n / NANOS_PER_SEC as int) * 1_000_000 + (n % NANOS_PER_SEC as int) / 1000) as i64,
            exponent: -6i32,
        },
    )
}

/// What serializing a parsed point gives back, by the kind of input it was read from: the
/// same whole seconds; the same number truncated toward zero to whole microseconds; or, for
/// text, the point it denotes cut to whole microseconds.
pub open spec fn timestamp_comes_back(value: Annotated<Value>, back: Annotated<Value>) -> bool {
    match value.0 {
        Some(Value::I64(n)) => back.0 == Some(
            Value::F64(Float { significand: (n * 1_000_000) as i64, exponent: -6i32 }),
        ),
        Some(Value::U64(n)) => back.0 == Some(
            Value::F64(Float { significand: (n * 1_000_000) as i64, exponent: -6i32 }),
        ),
        Some(Value::F64(g)) => back.0 == Some(
            Value::F64(
                Float {
                    significand: (float_whole(g) * 1_000_000 + float_micros(g)) as i64,
                    exponent: -6i32,
                },
            ),
        ),
        Some(Value::String(s)) => match datetime_text_result(s@) {
            Ok(n) => back.0 == Some(micros_float(n)),
            Err(_) => false,
        },
        _ => true,
    }
}

/// A point that parses cleanly serializes back to the number it was read from, within
/// microseconds.
pub proof fn timestamp_round_trip(value: Annotated<Value>, t: Annotated<Timestamp>, back: Annotated<Value>)
    requires
        Timestamp::parses_to(value, t),
        Timestamp::serializes_to(t, back),
        t.0 is Some,
    ensures
        back.1 == value.1,
        timestamp_comes_back(value, back),
{
    let x = t.0->0@;
    match value.0 {
        Some(Value::I64(n)) => {
            assert(x == n * 1_000_000_000);
            assert(x / 1_000_000_000 == n) by {
                vstd::arithmetic::div_mod::lemma_div_multiples_vanish(n as int, 1_000_000_000);
                assert(1_000_000_000 * n == n * 1_000_000_000);
            }
            assert(x % 1_000_000_000 == 0) by {
                vstd::arithmetic::div_mod::lemma_mod_multiples_basic(n as int, 1_000_000_000);
            }
        },
        Some(Value::U64(n)) => {
            assert(x == n * 1_000_000_000);
            assert(x / 1_000_000_000 == n) by {
                vstd::arithmetic::div_mod::lemma_div_multiples_vanish(n as int, 1_000_000_000);
                assert(1_000_000_000 * n == n * 1_000_000_000);
            }
            assert(x % 1_000_000_000 == 0) by {
                vstd::arithmetic::div_mod::lemma_mod_multiples_basic(n as int, 1_000_000_000);
            }
        },
        Some(Value::F64(g)) => {
            let w = float_whole(g);
            let m = float_micros(g);
            lemma_float_micros_bounded(g);
            assert(x == w * 1_000_000_000 + m * 1000);
            if m >= 0 {
                vstd::arithmetic::div_mod::lemma_fundamental_div_mod_converse(
                    x,
                    1_000_000_000,
                    w,
                    m * 1000,
                );
                assert((m * 1000) / 1000 == m) by {
                    vstd::arithmetic::div_mod::lemma_div_multiples_vanish(m, 1000);
                    assert(1000 * m == m * 1000);
                }
            } else {
                let r = 1_000_000_000 + m * 1000;
                assert(x == (w - 1) * 1_000_000_000 + r);
                vstd::arithmetic::div_mod::lemma_fundamental_div_mod_converse(
                    x,
                    1_000_000_000,
                    w - 1,
                    r,
                );
                assert(r / 1000 == 1_000_000 + m) by {
                    vstd::arithmetic::div_mod::lemma_div_multiples_vanish(1_000_000 + m, 1000);
                    assert(1000 * (1_000_000 + m) == r);
                }
            }
        },
        _ => {},
    }
}

/// Element `k` is a non-null value that is not a number, and every other element is one.
pub open spec fn one_malformed_number(items: Seq<Annotated<Value>>, k: int) -> bool {
    &&& 0 <= k < items.len()
    &&& items[k].0 matches Some(v)
    &&& !(v is Null)
    &&& !(v is U64)
    &&& forall|i: int| 0 <= i < items.len() && i != k ==> (#[trigger] items[i]).0 is Some && items[i].0->0 is U64
}

/// The slot holds the number of the element, with the element's diagnostics.
pub open spec fn same_number(item: Annotated<Value>, slot: Annotated<u64>) -> bool {
    &&& slot.0 is Some
    &&& item.0 == Some(Value::U64(slot.0->0))
    &&& slot.1 == item.1
}

/// In a sequence of numbers where one element is of another kind, only that element's slot
/// is absent and carries an extra error; every other slot holds its number with its
/// diagnostics unchanged.
pub proof fn malformed_element_stays_local(value: Annotated<Value>, r: Annotated<Vec<Annotated<u64>>>, k: int)
    requires
        Vec::<Annotated<u64>>::parses_to(value, r),
        value.0 is Some,
        value.0->0 is Array,
        one_malformed_number(value.0->0->Array_0@, k),
    ensures
        r.0 is Some,
        r.0->0@.len() == value.0->0->Array_0@.len(),
        one_more_error(value.0->0->Array_0@[k], r.0->0@[k]),
        forall|i: int|
            0 <= i < r.0->0@.len() && i != k ==> same_number(
                value.0->0->Array_0@[i],
                #[trigger] r.0->0@[i],
            ),
{
    let items = value.0->0->Array_0;
    let out = r.0->0;
    assert(u64::parses_to(items@[k], out@[k]));
    assert(errors_of(out@[k].1).drop_last() =~= errors_of(items@[k].1));
    assert forall|i: int| 0 <= i < out@.len() && i != k implies same_number(
        items@[i],
        #[trigger] out@[i],
    ) by {
        assert(u64::parses_to(items@[i], out@[i]));
    }
}

} // verus!
