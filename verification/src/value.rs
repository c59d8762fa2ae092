//! Document values and their mathematical model.
use vstd::prelude::*;

verus! {

/// A twelve-byte object identifier.
#[derive(Clone, Copy, Debug)]
pub struct ObjectId {
    pub bytes: [u8; 12],
}

/// A document value.
#[derive(Debug)]
pub enum Value {
    Null,
    Boolean(bool),
    Int32(i32),
    Int64(i64),
    String(String),
    Binary { subtype: u8, bytes: Vec<u8> },
    ObjectId(ObjectId),
    Document(Document),
    Array(Vec<Value>),
    /// Milliseconds since the Unix epoch.
    DateTime(i64),
    Timestamp { time: u32, increment: u32 },
    /// The sixteen bytes of a decimal floating-point number, as stored.
    Decimal128([u8; 16]),
    RegularExpression { pattern: String, options: String },
    JavaScriptCode(String),
    JavaScriptCodeWithScope { code: String, scope: Document },
    Symbol(String),
    Undefined,
    MaxKey,
    MinKey,
}

/// An ordered list of named fields.
#[derive(Debug)]
pub struct Document {
    pub fields: Vec<(String, Value)>,
}

/// What a value means: strings and byte strings by their contents.
pub enum ValueModel {
    Null,
    Boolean(bool),
    Int32(i32),
    Int64(i64),
    String(Seq<char>),
    Binary(u8, Seq<u8>),
    ObjectId(Seq<u8>),
    Document(Seq<(Seq<char>, ValueModel)>),
    Array(Seq<ValueModel>),
    DateTime(i64),
    Timestamp(u32, u32),
    Decimal128(Seq<u8>),
    RegularExpression(Seq<char>, Seq<char>),
    JavaScriptCode(Seq<char>),
    JavaScriptCodeWithScope(Seq<char>, Seq<(Seq<char>, ValueModel)>),
    Symbol(Seq<char>),
    Undefined,
    MaxKey,
    MinKey,
}

/// What a document means: its fields in order, keys by their characters.
pub type DocModel = Seq<(Seq<char>, ValueModel)>;

pub open spec fn value_view(v: Value) -> ValueModel
    decreases v, 0nat,
{
    match v {
        Value::Null => ValueModel::Null,
        Value::Boolean(b) => ValueModel::Boolean(b),
        Value::Int32(i) => ValueModel::Int32(i),
        Value::Int64(i) => ValueModel::Int64(i),
        Value::String(s) => ValueModel::String(s@),
        Value::Binary { subtype, bytes } => ValueModel::Binary(subtype, bytes@),
        Value::ObjectId(o) => ValueModel::ObjectId(o.bytes@),
        Value::Document(d) => {
            proof {
                assert(decreases_to!(d.fields => d.fields@)) by {
                    broadcast use vstd::std_specs::vec::axiom_vec_decreases_to_view;
                }
            }
            ValueModel::Document(fields_view(d.fields@))
        },
        Value::Array(a) => {
            proof {
                assert(decreases_to!(a => a@)) by {
                    broadcast use vstd::std_specs::vec::axiom_vec_decreases_to_view;
                }
            }
            ValueModel::Array(values_view(a@))
        },
        Value::DateTime(t) => ValueModel::DateTime(t),
        Value::Timestamp { time, increment } => ValueModel::Timestamp(time, increment),
        Value::Decimal128(b) => ValueModel::Decimal128(b@),
        Value::RegularExpression { pattern, options } => ValueModel::RegularExpression(
            pattern@,
            options@,
        ),
        Value::JavaScriptCode(c) => ValueModel::JavaScriptCode(c@),
        Value::JavaScriptCodeWithScope { code, scope } => {
            proof {
                assert(decreases_to!(scope.fields => scope.fields@)) by {
                    broadcast use vstd::std_specs::vec::axiom_vec_decreases_to_view;
                }
            }
            ValueModel::JavaScriptCodeWithScope(code@, fields_view(scope.fields@))
        },
        Value::Symbol(x) => ValueModel::Symbol(x@),
        Value::Undefined => ValueModel::Undefined,
        Value::MaxKey => ValueModel::MaxKey,
        Value::MinKey => ValueModel::MinKey,
    }
}

pub open spec fn fields_view(s: Seq<(String, Value)>) -> DocModel
    decreases s, s.len(),
{
    if s.len() == 0 {
        Seq::empty()
    } else {
        fields_view(s.drop_last()).push((s.last().0@, value_view(s.last().1)))
    }
}

pub open spec fn values_view(s: Seq<Value>) -> Seq<ValueModel>
    decreases s, s.len(),
{
    if s.len() == 0 {
        Seq::empty()
    } else {
        values_view(s.drop_last()).push(value_view(s.last()))
    }
}

impl View for Value {
    type V = ValueModel;

    open spec fn view(&self) -> ValueModel {
        value_view(*self)
    }
}

impl View for Document {
    type V = DocModel;

    open spec fn view(&self) -> DocModel {
        fields_view(self.fields@)
    }
}

pub broadcast proof fn lemma_fields_view_len(s: Seq<(String, Value)>)
    ensures
        #[trigger] fields_view(s).len() == s.len(),
    decreases s.len(),
{
    if s.len() > 0 {
        lemma_fields_view_len(s.drop_last());
    }
}

pub broadcast proof fn lemma_fields_view_index(s: Seq<(String, Value)>, i: int)
    requires
        0 <= i < s.len(),
    ensures
        #[trigger] fields_view(s)[i] == (s[i].0@, value_view(s[i].1)),
    decreases s.len(),
{
    lemma_fields_view_len(s.drop_last());
    if i < s.len() - 1 {
        lemma_fields_view_index(s.drop_last(), i);
    }
}

pub broadcast proof fn lemma_values_view_len(s: Seq<Value>)
    ensures
        #[trigger] values_view(s).len() == s.len(),
    decreases s.len(),
{
    if s.len() > 0 {
        lemma_values_view_len(s.drop_last());
    }
}

pub broadcast proof fn lemma_values_view_index(s: Seq<Value>, i: int)
    requires
        0 <= i < s.len(),
    ensures
        #[trigger] values_view(s)[i] == value_view(s[i]),
    decreases s.len(),
{
    lemma_values_view_len(s.drop_last());
    if i < s.len() - 1 {
        lemma_values_view_index(s.drop_last(), i);
    }
}

pub broadcast group group_view_lemmas {
    lemma_fields_view_len,
    lemma_fields_view_index,
    lemma_values_view_len,
    lemma_values_view_index,
}


/// The position of the first field named `k` at or after `i`.
pub open spec fn key_index_from(d: DocModel, k: Seq<char>, i: int) -> Option<int>
    decreases d.len() - i,
{
    if i < 0 || i >= d.len() {
        None
    } else if d[i].0 == k {
        Some(i)
    } else {
        key_index_from(d, k, i + 1)
    }
}

/// The position of the first field named `k`.
pub open spec fn key_index(d: DocModel, k: Seq<char>) -> Option<int> {
    key_index_from(d, k, 0)
}

/// The value of the first field named `k`.
pub open spec fn doc_get(d: DocModel, k: Seq<char>) -> Option<ValueModel> {
    match key_index(d, k) {
        Some(i) => Some(d[i].1),
        None => None,
    }
}

/// `d` with field `k` set to `v`: replaced in place where it is, else appended.
pub open spec fn doc_insert(d: DocModel, k: Seq<char>, v: ValueModel) -> DocModel {
    match key_index(d, k) {
        Some(i) => d.update(i, (k, v)),
        None => d.push((k, v)),
    }
}

/// `d` without any field named `k`.
pub open spec fn doc_remove(d: DocModel, k: Seq<char>) -> DocModel
    decreases d.len(),
{
    if d.len() == 0 {
        d
    } else if d.last().0 == k {
        doc_remove(d.drop_last(), k)
    } else {
        doc_remove(d.drop_last(), k).push(d.last())
    }
}

pub proof fn lemma_key_index_from(d: DocModel, k: Seq<char>, i: int)
    requires
        0 <= i <= d.len(),
    ensures
        key_index_from(d, k, i) matches Some(j) ==> i <= j < d.len() && d[j].0 == k
            && forall|m: int| i <= m < j ==> d[m].0 != k,
        key_index_from(d, k, i) is None ==> forall|m: int| i <= m < d.len() ==> d[m].0 != k,
    decreases d.len() - i,
{
    if i < d.len() {
        lemma_key_index_from(d, k, i + 1);
    }
}

/// Exec: the key of a field is equal to a given string.
pub fn key_is(key: &String, name: &str) -> (r: bool)
    ensures
        r == (key@ == name@),
{
    let n: String = name.to_owned();
    *key == n
}

impl ObjectId {
    pub fn same_as(&self, other: &ObjectId) -> (r: bool)
        ensures
            r == (self.bytes@ == other.bytes@),
    {
        let mut i: usize = 0;
        while i < 12
            invariant
                i <= 12,
                self.bytes@.len() == 12,
                other.bytes@.len() == 12,
                forall|j: int| 0 <= j < i ==> self.bytes@[j] == other.bytes@[j],
            decreases 12 - i,
        {
            if self.bytes[i] != other.bytes[i] {
                return false;
            }
            i = i + 1;
        }
        assert(self.bytes@ =~= other.bytes@);
        true
    }
}

fn bytes_equal(a: &Vec<u8>, b: &Vec<u8>) -> (r: bool)
    ensures
        r == (a@ == b@),
{
    if a.len() != b.len() {
        return false;
    }
    let mut i: usize = 0;
    while i < a.len()
        invariant
            i <= a.len(),
            a.len() == b.len(),
            forall|j: int| 0 <= j < i ==> a@[j] == b@[j],
        decreases a.len() - i,
    {
        if a[i] != b[i] {
            return false;
        }
        i = i + 1;
    }
    assert(a@ =~= b@);
    true
}

fn decimals_equal(a: &[u8; 16], b: &[u8; 16]) -> (r: bool)
    ensures
        r == (a@ == b@),
{
    let mut i: usize = 0;
    while i < 16
        invariant
            i <= 16,
            a@.len() == 16,
            b@.len() == 16,
            forall|j: int| 0 <= j < i ==> a@[j] == b@[j],
        decreases 16 - i,
    {
        if a[i] != b[i] {
            return false;
        }
        i = i + 1;
    }
    assert(a@ =~= b@);
    true
}

fn copy_bytes(a: &Vec<u8>) -> (r: Vec<u8>)
    ensures
        r@ == a@,
{
    let mut r: Vec<u8> = Vec::new();
    let mut i: usize = 0;
    while i < a.len()
        invariant
            i <= a.len(),
            r@ == a@.take(i as int),
        decreases a.len() - i,
    {
        r.push(a[i]);
        i = i + 1;
        assert(r@ =~= a@.take(i as int));
    }
    assert(a@.take(a.len() as int) =~= a@);
    r
}

impl Value {
    /// A copy of this value.
    pub fn duplicate(&self) -> (r: Value)
        ensures
            r@ == self@,
        decreases self,
    {
        broadcast use group_view_lemmas;
        match self {
            Value::Null => Value::Null,
            Value::Boolean(b) => Value::Boolean(*b),
            Value::Int32(i) => Value::Int32(*i),
            Value::Int64(i) => Value::Int64(*i),
            Value::String(s) => Value::String(s.clone()),
            Value::Binary { subtype, bytes } => Value::Binary { subtype: *subtype, bytes: copy_bytes(bytes) },
            Value::ObjectId(o) => Value::ObjectId(*o),
            Value::Document(d) => Value::Document(d.duplicate()),
            Value::Array(a) => Value::Array(duplicate_values(a)),
            Value::DateTime(t) => Value::DateTime(*t),
            Value::Timestamp { time, increment } => Value::Timestamp { time: *time, increment: *increment },
            Value::Decimal128(b) => Value::Decimal128(*b),
            Value::RegularExpression { pattern, options } => Value::RegularExpression {
                pattern: pattern.clone(),
                options: options.clone(),
            },
            Value::JavaScriptCode(c) => Value::JavaScriptCode(c.clone()),
            Value::JavaScriptCodeWithScope { code, scope } => Value::JavaScriptCodeWithScope {
                code: code.clone(),
                scope: scope.duplicate(),
            },
            Value::Symbol(x) => Value::Symbol(x.clone()),
            Value::Undefined => Value::Undefined,
            Value::MaxKey => Value::MaxKey,
            Value::MinKey => Value::MinKey,
        }
    }
}

impl Document {
    pub fn new() -> (r: Document)
        ensures
            r@ == Seq::<(Seq<char>, ValueModel)>::empty(),
    {
        let r = Document { fields: Vec::new() };
        assert(r@ =~= Seq::<(Seq<char>, ValueModel)>::empty());
        r
    }

    pub fn len(&self) -> (r: usize)
        ensures
            r == self@.len(),
    {
        broadcast use group_view_lemmas;
        self.fields.len()
    }

    /// A copy of this document.
    pub fn duplicate(&self) -> (r: Document)
        ensures
            r@ == self@,
        decreases self,
    {
        broadcast use group_view_lemmas;
        let mut r: Vec<(String, Value)> = Vec::new();
        let mut i: usize = 0;
        while i < self.fields.len()
            invariant
                i <= self.fields.len(),
                r@.len() == i,
                forall|j: int|
                    0 <= j < i ==> (#[trigger] r@[j]).0@ == self.fields@[j].0@ && value_view(r@[j].1)
                        == value_view(self.fields@[j].1),
            decreases self.fields.len() - i,
        {
            proof {
                vstd::std_specs::vec::axiom_vec_index_decreases(self.fields, i as int);
            }
            let k = self.fields[i].0.clone();
            let v = self.fields[i].1.duplicate();
            r.push((k, v));
            i = i + 1;
        }
        let d = Document { fields: r };
        assert(d@ =~= self@);
        d
    }

    /// The value of the first field named `key`.
    pub fn get(&self, key: &str) -> (r: Option<&Value>)
        ensures
            match r {
                Some(v) => doc_get(self@, key@) == Some(v@),
                None => doc_get(self@, key@) is None,
            },
    {
        broadcast use group_view_lemmas;
        match self.find_key(key) {
            Some(i) => Some(&self.fields[i].1),
            None => None,
        }
    }

    /// The position of the first field named `key`.
    pub fn find_key(&self, key: &str) -> (r: Option<usize>)
        ensures
            match r {
                Some(i) => key_index(self@, key@) == Some(i as int) && i < self.fields.len(),
                None => key_index(self@, key@) is None,
            },
    {
        broadcast use group_view_lemmas;
        let ghost d = self@;
        let mut i: usize = 0;
        while i < self.fields.len()
            invariant
                i <= self.fields.len(),
                d == self@,
                d.len() == self.fields.len(),
                key_index_from(d, key@, 0) == key_index_from(d, key@, i as int),
            decreases self.fields.len() - i,
        {
            proof { lemma_fields_view_index(self.fields@, i as int); }
            if key_is(&self.fields[i].0, key) {
                return Some(i);
            }
            i = i + 1;
        }
        None
    }

    /// Sets field `key` to `value`, in place where the field is, else at the end.
    pub fn insert(&mut self, key: String, value: Value)
        ensures
            final(self)@ == doc_insert(old(self)@, key@, value@),
    {
        broadcast use group_view_lemmas;
        let ghost k = key@;
        let ghost v = value@;
        let s: &str = key.as_str();
        match self.find_key(s) {
            Some(i) => {
                self.fields.set(i, (key, value));
                assert(self@ =~= doc_insert(old(self)@, k, v));
            },
            None => {
                self.fields.push((key, value));
                assert(self@ =~= doc_insert(old(self)@, k, v));
            },
        }
    }

    /// Removes every field named `key`.
    pub fn remove(&mut self, key: &str)
        ensures
            final(self)@ == doc_remove(old(self)@, key@),
    {
        broadcast use group_view_lemmas;
        let ghost d = self@;
        let mut old_fields: Vec<(String, Value)> = Vec::new();
        std::mem::swap(&mut old_fields, &mut self.fields);
        assert(fields_view(old_fields@) == d);
        let mut r: Vec<(String, Value)> = Vec::new();
        let mut i: usize = 0;
        let n = old_fields.len();
        while i < n
            invariant
                i <= n,
                n == old_fields.len(),
                fields_view(old_fields@) == d,
                d.len() == n,
                fields_view(r@) == doc_remove(d.take(i as int), key@),
            decreases n - i,
        {
            let (k, v) = copy_field(&old_fields[i]);
            let keep = !key_is(&k, key);
            proof {
                lemma_fields_view_index(old_fields@, i as int);
                assert(d.take(i + 1).drop_last() =~= d.take(i as int));
            }
            if keep {
                let ghost before = r@;
                r.push((k, v));
                assert(r@.drop_last() =~= before);
            }
            i = i + 1;
        }
        assert(d.take(n as int) =~= d);
        self.fields = r;
    }
}

/// Whether two values mean the same.
pub fn values_equal(a: &Value, b: &Value) -> (r: bool)
    ensures
        r == (a@ == b@),
    decreases a,
{
    match (a, b) {
        (Value::Null, Value::Null) => true,
        (Value::Boolean(x), Value::Boolean(y)) => *x == *y,
        (Value::Int32(x), Value::Int32(y)) => *x == *y,
        (Value::Int64(x), Value::Int64(y)) => *x == *y,
        (Value::String(x), Value::String(y)) => *x == *y,
        (Value::Binary { subtype: s1, bytes: x }, Value::Binary { subtype: s2, bytes: y }) => *s1
            == *s2 && bytes_equal(x, y),
        (Value::ObjectId(x), Value::ObjectId(y)) => x.same_as(y),
        (Value::Document(x), Value::Document(y)) => documents_equal(x, y),
        (Value::Array(x), Value::Array(y)) => value_lists_equal(x, y),
        (Value::DateTime(x), Value::DateTime(y)) => *x == *y,
        (
            Value::Timestamp { time: t1, increment: i1 },
            Value::Timestamp { time: t2, increment: i2 },
        ) => *t1 == *t2 && *i1 == *i2,
        (Value::Decimal128(x), Value::Decimal128(y)) => decimals_equal(x, y),
        (
            Value::RegularExpression { pattern: p1, options: o1 },
            Value::RegularExpression { pattern: p2, options: o2 },
        ) => *p1 == *p2 && *o1 == *o2,
        (Value::JavaScriptCode(x), Value::JavaScriptCode(y)) => *x == *y,
        (
            Value::JavaScriptCodeWithScope { code: c1, scope: d1 },
            Value::JavaScriptCodeWithScope { code: c2, scope: d2 },
        ) => *c1 == *c2 && documents_equal(d1, d2),
        (Value::Symbol(x), Value::Symbol(y)) => *x == *y,
        (Value::Undefined, Value::Undefined) => true,
        (Value::MaxKey, Value::MaxKey) => true,
        (Value::MinKey, Value::MinKey) => true,
        _ => false,
    }
}

/// Whether two documents mean the same.
pub fn documents_equal(a: &Document, b: &Document) -> (r: bool)
    ensures
        r == (a@ == b@),
    decreases a,
{
    proof {
        lemma_fields_view_len(a.fields@);
        lemma_fields_view_len(b.fields@);
    }
    if a.fields.len() != b.fields.len() {
        return false;
    }
    let mut i: usize = 0;
    while i < a.fields.len()
        invariant
            i <= a.fields.len(),
            a.fields.len() == b.fields.len(),
            forall|j: int| 0 <= j < i ==> #[trigger] a@[j] == b@[j],
        decreases a.fields.len() - i,
    {
        proof {
            vstd::std_specs::vec::axiom_vec_index_decreases(a.fields, i as int);
            lemma_fields_view_index(a.fields@, i as int);
            lemma_fields_view_index(b.fields@, i as int);
        }
        let same_key = a.fields[i].0 == b.fields[i].0;
        if !same_key {
            assert(a@[i as int] != b@[i as int]);
            return false;
        }
        if !values_equal(&a.fields[i].1, &b.fields[i].1) {
            assert(a@[i as int] != b@[i as int]);
            return false;
        }
        i = i + 1;
    }
    assert(a@ =~= b@);
    true
}

/// Whether two lists of values mean the same.
fn value_lists_equal(a: &Vec<Value>, b: &Vec<Value>) -> (r: bool)
    ensures
        r == (values_view(a@) == values_view(b@)),
    decreases a,
{
    proof {
        lemma_values_view_len(a@);
        lemma_values_view_len(b@);
    }
    if a.len() != b.len() {
        return false;
    }
    let mut i: usize = 0;
    while i < a.len()
        invariant
            i <= a.len(),
            a.len() == b.len(),
            forall|j: int| 0 <= j < i ==> #[trigger] values_view(a@)[j] == values_view(b@)[j],
        decreases a.len() - i,
    {
        proof {
            vstd::std_specs::vec::axiom_vec_index_decreases(*a, i as int);
            lemma_values_view_index(a@, i as int);
            lemma_values_view_index(b@, i as int);
        }
        if !values_equal(&a[i], &b[i]) {
            assert(values_view(a@)[i as int] != values_view(b@)[i as int]);
            return false;
        }
        i = i + 1;
    }
    assert(values_view(a@) =~= values_view(b@));
    true
}

/// A copy of a list of values.
fn duplicate_values(a: &Vec<Value>) -> (r: Vec<Value>)
    ensures
        values_view(r@) == values_view(a@),
    decreases a,
{
    broadcast use group_view_lemmas;
    let mut r: Vec<Value> = Vec::new();
    let mut i: usize = 0;
    while i < a.len()
        invariant
            i <= a.len(),
            r@.len() == i,
            forall|j: int| 0 <= j < i ==> value_view(#[trigger] r@[j]) == value_view(a@[j]),
        decreases a.len() - i,
    {
        proof {
            vstd::std_specs::vec::axiom_vec_index_decreases(*a, i as int);
        }
        let v = a[i].duplicate();
        r.push(v);
        i = i + 1;
    }
    assert(values_view(r@) =~= values_view(a@));
    r
}

/// A copy of one field.
fn copy_field(f: &(String, Value)) -> (r: (String, Value))
    ensures
        r.0@ == f.0@,
        r.1@ == f.1@,
{
    (f.0.clone(), f.1.duplicate())
}

} // verus!
