//! The annotated value tree: values, their diagnostics, and the diagnostics tree.
use vstd::prelude::*;

verus! {

/// A processing flag recorded on a node.
#[derive(Debug, Clone, Copy, PartialEq, Eq, Structural, Hash)]
pub enum MetaFlag {
    /// The value was shortened to fit its size cap.
    Truncated,
    /// The value was removed or masked because it may hold personal data.
    Redacted,
}

/// Diagnostics attached to a node: the errors met while handling it and its flags.
#[derive(Debug, Clone, PartialEq, Default)]
pub struct Meta {
    errors: Vec<String>,
    flags: Vec<MetaFlag>,
}

impl View for Meta {
    /// The error messages in the order they were added, and the set of flags.
    type V = (Seq<Seq<char>>, Set<MetaFlag>);

    closed spec fn view(&self) -> (Seq<Seq<char>>, Set<MetaFlag>) {
        (self.errors@.map_values(|e: String| e@), self.flags@.to_set())
    }
}

/// Error messages of a diagnostics record.
pub open spec fn errors_of(m: Meta) -> Seq<Seq<char>> {
    m@.0
}

/// Flags of a diagnostics record.
pub open spec fn flags_of(m: Meta) -> Set<MetaFlag> {
    m@.1
}

/// Whether a diagnostics record holds neither errors nor flags.
pub open spec fn meta_is_empty(m: Meta) -> bool {
    errors_of(m).len() == 0 && flags_of(m).is_empty()
}

impl Meta {
    /// A record without errors or flags.
    pub fn new() -> (r: Meta)
        ensures
            errors_of(r) == Seq::<Seq<char>>::empty(),
            flags_of(r) == Set::<MetaFlag>::empty(),
    {
        let r = Meta { errors: Vec::new(), flags: Vec::new() };
        proof {
            assert(r@.0 =~= Seq::<Seq<char>>::empty());
            assert(r@.1 =~= Set::<MetaFlag>::empty());
        }
        r
    }

    /// Appends an error message.
    pub fn add_error(&mut self, message: String)
        ensures
            errors_of(*final(self)) == errors_of(*old(self)).push(message@),
            flags_of(*final(self)) == flags_of(*old(self)),
    {
        self.errors.push(message);
        proof {
            assert(final(self)@.0 =~= old(self)@.0.push(message@));
            assert(final(self).flags@ == old(self).flags@);
        }
    }

    /// Whether any error was recorded.
    pub fn has_errors(&self) -> (r: bool)
        ensures
            r == (errors_of(*self).len() > 0),
    {
        self.errors.len() > 0
    }

    /// The number of recorded errors.
    pub fn error_count(&self) -> (r: usize)
        ensures
            r == errors_of(*self).len(),
    {
        self.errors.len()
    }

    /// The error message at `i`.
    pub fn error_at(&self, i: usize) -> (r: &str)
        requires
            i < errors_of(*self).len(),
        ensures
            r@ == errors_of(*self)[i as int],
    {
        self.errors[i].as_str()
    }

    /// Whether the flag is set.
    pub fn has_flag(&self, flag: MetaFlag) -> (r: bool)
        ensures
            r == flags_of(*self).contains(flag),
    {
        let mut i: usize = 0;
        while i < self.flags.len()
            invariant
                i <= self.flags@.len(),
                forall|j: int| 0 <= j < i ==> self.flags@[j] != flag,
            decreases self.flags@.len() - i,
        {
            if self.flags[i] == flag {
                return true;
            }
            i = i + 1;
        }
        proof {
            assert(!self.flags@.contains(flag));
        }
        false
    }

    /// Sets a flag; setting it twice has no further effect.
    pub fn set_flag(&mut self, flag: MetaFlag)
        ensures
            errors_of(*final(self)) == errors_of(*old(self)),
            flags_of(*final(self)) == flags_of(*old(self)).insert(flag),
    {
        if !self.has_flag(flag) {
            let ghost before = self.flags@;
            self.flags.push(flag);
            proof {
                assert(self.flags@[before.len() as int] == flag);
                assert forall|x: MetaFlag| self.flags@.contains(x) <==> (before.contains(x) || x
                    == flag) by {
                    if before.contains(x) {
                        let j = choose|j: int| 0 <= j < before.len() && before[j] == x;
                        assert(self.flags@[j] == x);
                    }
                }
                assert(self@.1 =~= old(self)@.1.insert(flag));
            }
        } else {
            proof {
                assert(self@.1 =~= old(self)@.1.insert(flag));
            }
        }
    }

    /// Whether the record holds neither errors nor flags.
    pub fn is_empty(&self) -> (r: bool)
        ensures
            r == meta_is_empty(*self),
    {
        proof {
            if self.flags@.len() > 0 {
                assert(self@.1.contains(self.flags@[0]));
            }
            if self.flags@.len() == 0 {
                assert(self@.1 =~= Set::<MetaFlag>::empty());
            }
        }
        self.errors.len() == 0 && self.flags.len() == 0
    }

    /// A record with the same errors and flags.
    pub fn duplicate(&self) -> (r: Meta)
        ensures
            r@ == self@,
    {
        let mut errors: Vec<String> = Vec::new();
        let mut i: usize = 0;
        while i < self.errors.len()
            invariant
                i <= self.errors@.len(),
                errors@.len() == i,
                forall|j: int| 0 <= j < i ==> errors@[j]@ == self.errors@[j]@,
            decreases self.errors@.len() - i,
        {
            errors.push(self.errors[i].clone());
            i = i + 1;
        }
        let mut flags: Vec<MetaFlag> = Vec::new();
        let mut k: usize = 0;
        while k < self.flags.len()
            invariant
                k <= self.flags@.len(),
                flags@ == self.flags@.subrange(0, k as int),
            decreases self.flags@.len() - k,
        {
            flags.push(self.flags[k]);
            k = k + 1;
        }
        let r = Meta { errors, flags };
        proof {
            assert(r@.0 =~= self@.0);
            assert(flags@ =~= self.flags@);
        }
        r
    }
}

/// A value that may be absent, paired with its diagnostics.
#[derive(Debug, Clone, PartialEq)]
pub struct Annotated<T>(pub Option<T>, pub Meta);

impl<T> Annotated<T> {
    /// A present value without diagnostics.
    pub fn new(value: T) -> (r: Annotated<T>)
        ensures
            r.0 == Some(value),
            meta_is_empty(r.1),
    {
        Annotated(Some(value), Meta::new())
    }

    /// An absent value without diagnostics.
    pub fn empty() -> (r: Annotated<T>)
        ensures
            r.0 is None,
            meta_is_empty(r.1),
    {
        Annotated(None, Meta::new())
    }

    /// The value, if present.
    pub fn value(&self) -> (r: Option<&T>)
        ensures
            r == match self.0 {
                Some(v) => Some(&v),
                None => None::<&T>,
            },
    {
        match &self.0 {
            Some(v) => Some(v),
            None => None,
        }
    }

    /// Replaces the value, keeping the diagnostics.
    pub fn set_value(&mut self, value: Option<T>)
        ensures
            final(self).0 == value,
            final(self).1 == old(self).1,
    {
        self.0 = value;
    }

    /// The diagnostics.
    pub fn meta(&self) -> (r: &Meta)
        ensures
            *r == self.1,
    {
        &self.1
    }

    /// Whether both the value and its diagnostics are empty, so that output may leave the
    /// field out entirely.
    pub fn skip_serialization(&self) -> (r: bool)
        ensures
            r == (self.0 is None && meta_is_empty(self.1)),
    {
        self.0.is_none() && self.1.is_empty()
    }
}


/// A number given with a fractional part: `significand * 10^exponent`.
///
/// Decoders hand floating-point input over in this form, which keeps every digit that the
/// input carried.
#[derive(Debug, Clone, Copy, PartialEq, Eq, Structural, Hash)]
pub struct Float {
    pub significand: i64,
    pub exponent: i32,
}

/// An untyped value of the tree.
#[derive(Debug, PartialEq)]
pub enum Value {
    Null,
    Bool(bool),
    U64(u64),
    I64(i64),
    F64(Float),
    String(String),
    Array(Vec<Annotated<Value>>),
    Object(Object<Value>),
}

/// The decimal digits of `n`.
pub open spec fn decimal(n: nat) -> Seq<char>
    decreases n,
{
    let digit = (('0' as u8) + (n % 10) as u8) as char;
    if n < 10 {
        seq![digit]
    } else {
        decimal(n / 10).push(digit)
    }
}

/// Relies on `ToString` of `usize`, which writes the number in decimal.
#[verifier::external_body]
pub(crate) fn index_key(i: usize) -> (r: String)
    ensures
        r@ == decimal(i as nat),
{
    i.to_string()
}

/// Whether two character sequences are equal.
pub fn str_eq(a: &str, b: &str) -> (r: bool)
    ensures
        r == (a@ == b@),
{
    let n = a.unicode_len();
    if n != b.unicode_len() {
        return false;
    }
    let mut i: usize = 0;
    while i < n
        invariant
            n == a@.len(),
            n == b@.len(),
            i <= n,
            forall|j: int| 0 <= j < i ==> a@[j] == b@[j],
        decreases n - i,
    {
        if a.get_char(i) != b.get_char(i) {
            return false;
        }
        i = i + 1;
    }
    proof {
        assert(a@ =~= b@);
    }
    true
}

/// A mapping from string keys to annotated values, keys unique, in insertion order.
#[derive(Debug, PartialEq)]
pub struct Object<T> {
    pub entries: Vec<(String, Annotated<T>)>,
}

/// The key of the `i`-th entry.
pub open spec fn key_at<T>(o: Object<T>, i: int) -> Seq<char> {
    o.entries@[i].0@
}

impl<T> Object<T> {
    /// No key occurs twice.
    pub open spec fn wf(self) -> bool {
        forall|i: int, j: int|
            0 <= i < j < self.entries@.len() ==> #[trigger] key_at(self, i) != #[trigger] key_at(
                self,
                j,
            )
    }

    /// Whether some entry has the key.
    pub open spec fn has_key(self, key: Seq<char>) -> bool {
        exists|i: int| 0 <= i < self.entries@.len() && key_at(self, i) == key
    }

    /// An empty mapping.
    pub fn new() -> (r: Object<T>)
        ensures
            r.entries@.len() == 0,
            r.wf(),
    {
        Object { entries: Vec::new() }
    }

    /// The number of entries.
    pub fn len(&self) -> (r: usize)
        ensures
            r == self.entries@.len(),
    {
        self.entries.len()
    }

    /// Whether the mapping has no entries.
    pub fn is_empty(&self) -> (r: bool)
        ensures
            r == (self.entries@.len() == 0),
    {
        self.entries.len() == 0
    }

    /// The position of the entry with the key, if there is one.
    pub fn position(&self, key: &str) -> (r: Option<usize>)
        ensures
            match r {
                Some(i) => i < self.entries@.len() && key_at(*self, i as int) == key@ && forall|
                    j: int,
                | 0 <= j < i ==> key_at(*self, j) != key@,
                None => !self.has_key(key@),
            },
    {
        let mut i: usize = 0;
        while i < self.entries.len()
            invariant
                i <= self.entries@.len(),
                forall|j: int| 0 <= j < i ==> key_at(*self, j) != key@,
            decreases self.entries@.len() - i,
        {
            if str_eq(self.entries[i].0.as_str(), key) {
                return Some(i);
            }
            i = i + 1;
        }
        None
    }

    /// The value stored under the key, if there is one: that of the first entry with it.
    pub fn get(&self, key: &str) -> (r: Option<&Annotated<T>>)
        ensures
            match first_key_index(*self, key@) {
                Some(i) => r == Some(&self.entries@[i].1),
                None => r is None,
            },
    {
        match self.position(key) {
            Some(i) => {
                proof {
                    lemma_first_key_index(*self, key@, i as int);
                }
                Some(&self.entries[i].1)
            },
            None => None,
        }
    }

    /// Stores a value under the key: an entry with that key is replaced in place, otherwise
    /// the entry is appended. Returns the value that was replaced.
    pub fn insert(&mut self, key: String, value: Annotated<T>) -> (r: Option<Annotated<T>>)
        requires
            old(self).wf(),
        ensures
            final(self).wf(),
            final(self).has_key(key@),
            old(self).has_key(key@) ==> final(self).entries@.len() == old(self).entries@.len(),
            !old(self).has_key(key@) ==> final(self).entries@ == old(self).entries@.push(
                (key, value),
            ),
            r is Some <==> old(self).has_key(key@),
            forall|i: int|
                0 <= i < final(self).entries@.len() ==> (#[trigger] final(self).entries@[i] == if key_at(
                    *final(self),
                    i,
                ) == key@ {
                    (key, value)
                } else {
                    old(self).entries@[i]
                }),
    {
        match self.position(key.as_str()) {
            Some(i) => {
                let mut entry = (key, value);
                let ghost before = self.entries@;
                let old_entry = self.entries.remove(i);
                self.entries.insert(i, entry);
                proof {
                    assert(self.entries@ =~= before.update(i as int, (key, value)));
                    assert forall|j: int| 0 <= j < self.entries@.len() && j != i implies key_at(
                        *self,
                        j,
                    ) != key@ by {
                        assert(key_at(*old(self), j) != key_at(*old(self), i as int));
                    }
                    assert(key_at(*self, i as int) == key@);
                    assert forall|a: int, b: int|
                        0 <= a < b < self.entries@.len() implies #[trigger] key_at(*self, a)
                        != #[trigger] key_at(*self, b) by {
                        if a != i && b != i {
                            assert(key_at(*self, a) == key_at(*old(self), a));
                            assert(key_at(*self, b) == key_at(*old(self), b));
                        }
                    }
                }
                Some(old_entry.1)
            },
            None => {
                let ghost k = key@;
                self.entries.push((key, value));
                proof {
                    let n = old(self).entries@.len() as int;
                    assert(key_at(*self, n) == k);
                    assert forall|j: int| 0 <= j < n implies key_at(*self, j) != k by {
                        assert(key_at(*old(self), j) == key_at(*self, j));
                    }
                    assert forall|a: int, b: int|
                        0 <= a < b < self.entries@.len() implies #[trigger] key_at(*self, a)
                        != #[trigger] key_at(*self, b) by {
                        assert(key_at(*self, a) == key_at(*old(self), a));
                        if b < n {
                            assert(key_at(*self, b) == key_at(*old(self), b));
                        }
                    }
                }
                None
            },
        }
    }
}

/// `i` is the first entry of the mapping under `key`.
pub open spec fn is_first_key<T>(o: Object<T>, key: Seq<char>, i: int) -> bool {
    &&& 0 <= i < o.entries@.len()
    &&& key_at(o, i) == key
    &&& forall|j: int| 0 <= j < i ==> key_at(o, j) != key
}

/// The first entry of the mapping under `key`, if any.
pub open spec fn first_key_index<T>(o: Object<T>, key: Seq<char>) -> Option<int> {
    if o.has_key(key) {
        Some(choose|i: int| is_first_key(o, key, i))
    } else {
        None
    }
}

pub proof fn lemma_first_key_index<T>(o: Object<T>, key: Seq<char>, i: int)
    requires
        is_first_key(o, key, i),
    ensures
        first_key_index(o, key) == Some(i),
{
    let c = choose|c: int| is_first_key(o, key, c);
    assert(is_first_key(o, key, c));
    if c < i {
        assert(key_at(o, c) != key);
    } else if i < c {
        assert(key_at(o, i) != key);
    }
}

/// A tree of the diagnostics of a value: the node's own record and, under the key or index
/// of each child, the child's tree.
#[derive(Debug, PartialEq)]
pub struct MetaTree {
    pub meta: Meta,
    pub children: Vec<(String, MetaTree)>,
}

/// Whether a diagnostics tree holds nothing.
pub open spec fn tree_is_empty(t: MetaTree) -> bool {
    meta_is_empty(t.meta) && t.children@.len() == 0
}

/// No child entry, at any depth, is an empty tree.
pub open spec fn tree_is_sparse(t: MetaTree) -> bool
    decreases t,
{
    forall|i: int|
        0 <= i < t.children@.len() ==> !tree_is_empty(#[trigger] t.children@[i].1)
            && tree_is_sparse(t.children@[i].1)
}

impl MetaTree {
    /// Whether the tree holds nothing.
    pub fn is_empty(&self) -> (r: bool)
        ensures
            r == tree_is_empty(*self),
    {
        self.meta.is_empty() && self.children.len() == 0
    }
}

} // verus!
