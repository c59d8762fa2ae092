//! The mathematical model of the database and what each operation does to it.
use vstd::prelude::*;
use crate::value::{doc_get, doc_insert, doc_remove, key_index, key_index_from, lemma_key_index_from, DocModel, ValueModel};
use crate::query::doc_matches;
use crate::update::{apply_update, id_key};
use crate::error::DbErr;

verus! {

/// Whether a transaction only reads, or also writes.
#[derive(Clone, Copy, Debug, PartialEq, Eq, Structural)]
pub enum TransactionType {
    Read,
    Write,
}

/// A collection: its name, its documents in order, and its index keys.
pub struct CollectionModel {
    pub name: Seq<char>,
    pub docs: Seq<DocModel>,
    pub indexes: Seq<DocModel>,
}

/// The whole database: its collections, the open transaction with the
/// collections as they were when it started, and the open sessions.
pub struct StoreModel {
    pub collections: Seq<CollectionModel>,
    pub transaction: Option<(TransactionType, Seq<CollectionModel>)>,
    pub sessions: Seq<Seq<u8>>,
}

/// The kinds of failure, without their payloads.
pub enum Failure {
    CollectionNotFound,
    CollectionAlreadyExits,
    DatabaseOccupied,
    DuplicateKey,
    UnexpectedIdType,
    InvalidQuery,
    InvalidUpdate,
    UnableToUpdatePrimaryKey,
    NoTransactionStarted,
    StartTransactionInAnotherTransaction,
    SessionOutdated,
    UnexpectedEof,
}

pub open spec fn err_kind(e: DbErr) -> Failure {
    match e {
        DbErr::CollectionNotFound(_) => Failure::CollectionNotFound,
        DbErr::CollectionAlreadyExits(_) => Failure::CollectionAlreadyExits,
        DbErr::DatabaseOccupied => Failure::DatabaseOccupied,
        DbErr::DuplicateKey => Failure::DuplicateKey,
        DbErr::UnexpectedIdType => Failure::UnexpectedIdType,
        DbErr::InvalidQuery => Failure::InvalidQuery,
        DbErr::InvalidUpdate => Failure::InvalidUpdate,
        DbErr::UnableToUpdatePrimaryKey => Failure::UnableToUpdatePrimaryKey,
        DbErr::NoTransactionStarted => Failure::NoTransactionStarted,
        DbErr::StartTransactionInAnotherTransaction => Failure::StartTransactionInAnotherTransaction,
        DbErr::SessionOutdated => Failure::SessionOutdated,
        DbErr::UnexpectedEof => Failure::UnexpectedEof,
    }
}

// ---------------------------------------------------------------- collections

/// The position of the first collection named `name` at or after `i`.
pub open spec fn col_index_from(cols: Seq<CollectionModel>, name: Seq<char>, i: int) -> Option<int>
    decreases cols.len() - i,
{
    if i < 0 || i >= cols.len() {
        None
    } else if cols[i].name == name {
        Some(i)
    } else {
        col_index_from(cols, name, i + 1)
    }
}

/// The position of the collection named `name`.
pub open spec fn find_col(cols: Seq<CollectionModel>, name: Seq<char>) -> Option<int> {
    col_index_from(cols, name, 0)
}

pub proof fn lemma_col_index_from(cols: Seq<CollectionModel>, name: Seq<char>, i: int)
    requires
        0 <= i <= cols.len(),
    ensures
        col_index_from(cols, name, i) matches Some(j) ==> i <= j < cols.len() && cols[j].name
            == name && forall|m: int| i <= m < j ==> cols[m].name != name,
        col_index_from(cols, name, i) is None ==> forall|m: int|
            i <= m < cols.len() ==> cols[m].name != name,
    decreases cols.len() - i,
{
    if i < cols.len() {
        lemma_col_index_from(cols, name, i + 1);
    }
}

/// What `find_col` gives, in terms of the collections' names.
pub proof fn lemma_find_col(cols: Seq<CollectionModel>, name: Seq<char>)
    ensures
        find_col(cols, name) matches Some(j) ==> 0 <= j < cols.len() && cols[j].name == name
            && forall|m: int| 0 <= m < j ==> cols[m].name != name,
        find_col(cols, name) is None ==> forall|m: int|
            0 <= m < cols.len() ==> cols[m].name != name,
{
    lemma_col_index_from(cols, name, 0);
}

/// The first collection named `name` is at `i`.
pub proof fn lemma_find_col_at(cols: Seq<CollectionModel>, name: Seq<char>, i: int)
    requires
        0 <= i < cols.len(),
        cols[i].name == name,
        forall|m: int| 0 <= m < i ==> cols[m].name != name,
    ensures
        find_col(cols, name) == Some(i),
{
    lemma_find_col(cols, name);
}

/// The names of the collections, in order.
pub open spec fn collection_names(cols: Seq<CollectionModel>) -> Seq<Seq<char>> {
    Seq::new(cols.len(), |i: int| cols[i].name)
}

pub open spec fn names_unique(cols: Seq<CollectionModel>) -> bool {
    forall|i: int, j: int| 0 <= i < j < cols.len() ==> cols[i].name != cols[j].name
}

pub open spec fn empty_collection(name: Seq<char>) -> CollectionModel {
    CollectionModel { name, docs: Seq::empty(), indexes: Seq::empty() }
}

/// The collections, with one named `name` appended where none is.
pub open spec fn auto_create(cols: Seq<CollectionModel>, name: Seq<char>) -> Seq<CollectionModel> {
    if find_col(cols, name) is Some {
        cols
    } else {
        cols.push(empty_collection(name))
    }
}

pub proof fn lemma_auto_create(cols: Seq<CollectionModel>, name: Seq<char>)
    ensures
        find_col(auto_create(cols, name), name) is Some,
        find_col(cols, name) is None ==> find_col(auto_create(cols, name), name) == Some(
            cols.len() as int,
        ),
        find_col(cols, name) is Some ==> auto_create(cols, name) == cols,
        names_unique(cols) ==> names_unique(auto_create(cols, name)),
{
    let cs = auto_create(cols, name);
    lemma_find_col(cols, name);
    lemma_find_col(cs, name);
    if find_col(cols, name) is None {
        assert(cs[cols.len() as int].name == name);
    }
}

// ---------------------------------------------------------------- documents

/// The `_id` of a document.
pub open spec fn doc_id(d: DocModel) -> Option<ValueModel> {
    doc_get(d, id_key())
}

/// A number for each kind of value.
pub open spec fn value_kind(v: ValueModel) -> nat {
    match v {
        ValueModel::Null => 0,
        ValueModel::Boolean(_) => 1,
        ValueModel::Int32(_) => 2,
        ValueModel::Int64(_) => 3,
        ValueModel::String(_) => 4,
        ValueModel::Binary(_, _) => 5,
        ValueModel::ObjectId(_) => 6,
        ValueModel::Document(_) => 7,
        ValueModel::Array(_) => 8,
        ValueModel::DateTime(_) => 9,
        ValueModel::Timestamp(_, _) => 10,
        ValueModel::Decimal128(_) => 11,
        ValueModel::RegularExpression(_, _) => 12,
        ValueModel::JavaScriptCode(_) => 13,
        ValueModel::JavaScriptCodeWithScope(_, _) => 14,
        ValueModel::Symbol(_) => 15,
        ValueModel::Undefined => 16,
        ValueModel::MaxKey => 17,
        ValueModel::MinKey => 18,
    }
}

/// Every document has an `_id`; no two are equal; all are of one kind.
pub open spec fn docs_keyed(docs: Seq<DocModel>) -> bool {
    &&& forall|i: int| 0 <= i < docs.len() ==> (#[trigger] doc_id(docs[i])) is Some
    &&& forall|i: int, j: int|
        0 <= i < docs.len() && 0 <= j < docs.len() && i != j ==> #[trigger] doc_id(docs[i])
            != #[trigger] doc_id(docs[j])
    &&& forall|i: int|
        #![trigger doc_id(docs[i])]
        0 <= i < docs.len() ==> value_kind(doc_id(docs[i])->0) == value_kind(doc_id(docs[0])->0)
}

pub open spec fn cols_wf(cols: Seq<CollectionModel>) -> bool {
    &&& names_unique(cols)
    &&& forall|i: int| 0 <= i < cols.len() ==> docs_keyed(#[trigger] cols[i].docs)
}

/// The invariant of the database.
pub open spec fn store_wf(m: StoreModel) -> bool {
    &&& cols_wf(m.collections)
    &&& (m.transaction matches Some(t) ==> cols_wf(t.1))
}

/// A session argument is absent or names an open session.
pub open spec fn session_ok(m: StoreModel, s: Option<Seq<u8>>) -> bool {
    match s {
        Some(id) => m.sessions.contains(id),
        None => true,
    }
}

pub open spec fn with_collections(m: StoreModel, cols: Seq<CollectionModel>) -> StoreModel {
    StoreModel { collections: cols, ..m }
}

pub open spec fn with_docs(c: CollectionModel, docs: Seq<DocModel>) -> CollectionModel {
    CollectionModel { docs, ..c }
}

// ---------------------------------------------------------------- queries

/// The documents that the filter selects, in order.
pub open spec fn select(docs: Seq<DocModel>, f: DocModel) -> Seq<DocModel>
    decreases docs.len(),
{
    if docs.len() == 0 {
        docs
    } else if doc_matches(docs.last(), f) {
        select(docs.drop_last(), f).push(docs.last())
    } else {
        select(docs.drop_last(), f)
    }
}

/// The documents that the filter does not select, in order.
pub open spec fn reject(docs: Seq<DocModel>, f: DocModel) -> Seq<DocModel>
    decreases docs.len(),
{
    if docs.len() == 0 {
        docs
    } else if doc_matches(docs.last(), f) {
        reject(docs.drop_last(), f)
    } else {
        reject(docs.drop_last(), f).push(docs.last())
    }
}

/// Every document that the filter selects, updated.
pub open spec fn update_selected(docs: Seq<DocModel>, f: DocModel, u: DocModel) -> Seq<DocModel> {
    Seq::new(
        docs.len(),
        |i: int|
            if doc_matches(docs[i], f) {
                apply_update(docs[i], u)
            } else {
                docs[i]
            },
    )
}

/// The position of the first document at or after `i` that the filter selects.
pub open spec fn first_match_from(docs: Seq<DocModel>, f: DocModel, i: int) -> Option<int>
    decreases docs.len() - i,
{
    if i < 0 || i >= docs.len() {
        None
    } else if doc_matches(docs[i], f) {
        Some(i)
    } else {
        first_match_from(docs, f, i + 1)
    }
}

pub open spec fn first_match(docs: Seq<DocModel>, f: DocModel) -> Option<int> {
    first_match_from(docs, f, 0)
}

pub proof fn lemma_first_match_from(docs: Seq<DocModel>, f: DocModel, i: int)
    requires
        0 <= i <= docs.len(),
    ensures
        first_match_from(docs, f, i) matches Some(j) ==> i <= j < docs.len() && doc_matches(
            docs[j],
            f,
        ) && forall|m: int| i <= m < j ==> !doc_matches(docs[m], f),
        first_match_from(docs, f, i) is None ==> forall|m: int|
            i <= m < docs.len() ==> !doc_matches(docs[m], f),
    decreases docs.len() - i,
{
    if i < docs.len() {
        lemma_first_match_from(docs, f, i + 1);
    }
}

/// The first selected document updated, if any.
pub open spec fn update_first(docs: Seq<DocModel>, f: DocModel, u: DocModel) -> Seq<DocModel> {
    match first_match(docs, f) {
        Some(i) => docs.update(i, apply_update(docs[i], u)),
        None => docs,
    }
}

/// The first selected document removed, if any.
pub open spec fn remove_first(docs: Seq<DocModel>, f: DocModel) -> Seq<DocModel> {
    match first_match(docs, f) {
        Some(i) => docs.remove(i),
        None => docs,
    }
}

// ---------------------------------------------------------------- inserts

/// The document as stored: with `fresh` as `_id` in front where it has none.
pub open spec fn with_id(d: DocModel, fresh: Seq<u8>) -> DocModel {
    if doc_id(d) is Some {
        d
    } else {
        seq![(id_key(), ValueModel::ObjectId(fresh))] + d
    }
}

/// Why `d` cannot join `docs`, if it cannot.
pub open spec fn insert_failure(docs: Seq<DocModel>, d: DocModel) -> Option<Failure> {
    if docs.len() > 0 && value_kind(doc_id(docs[0])->0) != value_kind(doc_id(d)->0) {
        Some(Failure::UnexpectedIdType)
    } else if exists|i: int| 0 <= i < docs.len() && doc_id(docs[i]) == doc_id(d) {
        Some(Failure::DuplicateKey)
    } else {
        None
    }
}

/// The collections with `d` (which has an `_id`) appended to the collection
/// named `name`, which is created first where it is missing.
pub open spec fn insert_into(cols: Seq<CollectionModel>, name: Seq<char>, d: DocModel) -> Result<
    Seq<CollectionModel>,
    Failure,
> {
    let cs = auto_create(cols, name);
    let i = find_col(cs, name)->0;
    match insert_failure(cs[i].docs, d) {
        Some(f) => Err(f),
        None => Ok(cs.update(i, with_docs(cs[i], cs[i].docs.push(d)))),
    }
}

/// The documents inserted in turn, each with its fresh id where it has no
/// `_id`; with the `_id`s in order.
pub open spec fn insert_all(
    cols: Seq<CollectionModel>,
    name: Seq<char>,
    ds: Seq<DocModel>,
    fresh: Seq<Seq<u8>>,
) -> Result<(Seq<CollectionModel>, Seq<ValueModel>), Failure>
    decreases ds.len(),
{
    if ds.len() == 0 {
        Ok((auto_create(cols, name), Seq::empty()))
    } else {
        match insert_all(cols, name, ds.drop_last(), fresh) {
            Err(f) => Err(f),
            Ok(p) => {
                let d = with_id(ds.last(), fresh[ds.len() - 1]);
                match insert_into(p.0, name, d) {
                    Err(f) => Err(f),
                    Ok(cs) => Ok((cs, p.1.push(doc_id(d)->0))),
                }
            },
        }
    }
}

/// Once inserting a prefix fails, inserting the whole fails the same way.
pub proof fn lemma_insert_all_failed_prefix(
    cols: Seq<CollectionModel>,
    name: Seq<char>,
    ds: Seq<DocModel>,
    fresh: Seq<Seq<u8>>,
    k: int,
)
    requires
        0 <= k <= ds.len(),
        insert_all(cols, name, ds.take(k), fresh) is Err,
    ensures
        insert_all(cols, name, ds, fresh) == insert_all(cols, name, ds.take(k), fresh),
    decreases ds.len() - k,
{
    if k == ds.len() {
        assert(ds.take(k) =~= ds);
    } else {
        assert(ds.take(k + 1).drop_last() =~= ds.take(k));
        lemma_insert_all_failed_prefix(cols, name, ds, fresh, k + 1);
    }
}

// ---------------------------------------------------------------- lemmas on `_id`

/// Looking a key up in a document with one more field at the end.
pub proof fn lemma_doc_get_push(d: DocModel, x: (Seq<char>, ValueModel), k: Seq<char>)
    ensures
        doc_get(d.push(x), k) == (if doc_get(d, k) is Some {
            doc_get(d, k)
        } else if x.0 == k {
            Some(x.1)
        } else {
            None
        }),
{
    let e = d.push(x);
    lemma_key_index_from(d, k, 0);
    lemma_key_index_from(e, k, 0);
    match key_index_from(d, k, 0) {
        Some(j) => {
            assert(e[j] == d[j]);
            match key_index_from(e, k, 0) {
                Some(j2) => {
                    if j2 < j {
                        assert(e[j2] == d[j2]);
                    }
                },
                None => {},
            }
        },
        None => {
            match key_index_from(e, k, 0) {
                Some(j2) => {
                    if j2 < d.len() {
                        assert(e[j2] == d[j2]);
                    }
                },
                None => {
                    assert(e[d.len() as int] == x);
                },
            }
        },
    }
}

/// Setting a field other than `k` leaves the value under `k` alone.
pub proof fn lemma_doc_insert_other(d: DocModel, k: Seq<char>, v: ValueModel, other: Seq<char>)
    requires
        k != other,
    ensures
        doc_get(doc_insert(d, k, v), other) == doc_get(d, other),
{
    lemma_key_index_from(d, k, 0);
    match key_index(d, k) {
        Some(i) => {
            let e = d.update(i, (k, v));
            lemma_key_index_from(d, other, 0);
            lemma_key_index_from(e, other, 0);
            assert forall|m: int| 0 <= m < d.len() implies #[trigger] e[m].0 == d[m].0 by {}
            match key_index_from(d, other, 0) {
                Some(j) => {
                    match key_index_from(e, other, 0) {
                        Some(j2) => {
                            assert(e[j2].0 == d[j2].0);
                            assert(e[j].0 == d[j].0);
                        },
                        None => {
                            assert(e[j].0 == d[j].0);
                        },
                    }
                },
                None => {
                    match key_index_from(e, other, 0) {
                        Some(j2) => {
                            assert(e[j2].0 == d[j2].0);
                        },
                        None => {},
                    }
                },
            }
        },
        None => {
            lemma_doc_get_push(d, (k, v), other);
        },
    }
}

/// Removing a field other than `k` leaves the value under `k` alone.
pub proof fn lemma_doc_remove_other(d: DocModel, k: Seq<char>, other: Seq<char>)
    requires
        k != other,
    ensures
        doc_get(doc_remove(d, k), other) == doc_get(d, other),
    decreases d.len(),
{
    if d.len() > 0 {
        lemma_doc_remove_other(d.drop_last(), k, other);
        assert(d.drop_last().push(d.last()) =~= d);
        lemma_doc_get_push(d.drop_last(), d.last(), other);
        if d.last().0 != k {
            lemma_doc_get_push(doc_remove(d.drop_last(), k), d.last(), other);
        }
    }
}

/// No field of `a` is named `_id`.
pub open spec fn no_id_field(a: DocModel) -> bool {
    forall|m: int| 0 <= m < a.len() ==> (#[trigger] a[m]).0 != id_key()
}

pub proof fn lemma_set_fields_keep_id(d: DocModel, a: DocModel)
    requires
        no_id_field(a),
    ensures
        doc_id(crate::update::set_fields(d, a)) == doc_id(d),
    decreases a.len(),
{
    if a.len() > 0 {
        assert(no_id_field(a.drop_last())) by {
            assert forall|m: int| 0 <= m < a.drop_last().len() implies (#[trigger] a.drop_last()[m]).0 != id_key() by {
                assert(a.drop_last()[m] == a[m]);
            }
        }
        lemma_set_fields_keep_id(d, a.drop_last());
        assert(a.last() == a[a.len() - 1]);
        lemma_doc_insert_other(crate::update::set_fields(d, a.drop_last()), a.last().0, a.last().1, id_key());
    }
}

pub proof fn lemma_unset_fields_keep_id(d: DocModel, a: DocModel)
    requires
        no_id_field(a),
    ensures
        doc_id(crate::update::unset_fields(d, a)) == doc_id(d),
    decreases a.len(),
{
    if a.len() > 0 {
        assert(no_id_field(a.drop_last())) by {
            assert forall|m: int| 0 <= m < a.drop_last().len() implies (#[trigger] a.drop_last()[m]).0 != id_key() by {
                assert(a.drop_last()[m] == a[m]);
            }
        }
        lemma_unset_fields_keep_id(d, a.drop_last());
        assert(a.last() == a[a.len() - 1]);
        lemma_doc_remove_other(crate::update::unset_fields(d, a.drop_last()), a.last().0, id_key());
    }
}

/// An accepted update leaves every document's `_id` alone.
pub proof fn lemma_update_keeps_id(d: DocModel, u: DocModel)
    requires
        crate::update::update_accepted(u),
    ensures
        doc_id(apply_update(d, u)) == doc_id(d),
    decreases u.len(),
{
    if u.len() > 0 {
        let p = u.drop_last();
        assert(crate::update::update_accepted(p)) by {
            assert forall|i: int| 0 <= i < p.len() implies #[trigger] crate::update::update_op_valid(p[i].0, p[i].1) by {
                assert(p[i] == u[i]);
                assert(crate::update::update_op_valid(u[i].0, u[i].1));
            }
            if crate::update::update_touches_id(p) {
                let i = choose|i: int|
                    0 <= i < p.len() && match #[trigger] p[i].1 {
                        ValueModel::Document(a) => key_index(a, id_key()) is Some,
                        _ => false,
                    };
                assert(p[i] == u[i]);
                assert(crate::update::update_touches_id(u));
            }
        }
        lemma_update_keeps_id(d, p);
        let last = u[u.len() - 1];
        assert(u.last() == last);
        let prev = apply_update(d, p);
        match last.1 {
            ValueModel::Document(a) => {
                if key_index(a, id_key()) is Some {
                    assert(crate::update::update_touches_id(u));
                }
                lemma_key_index_from(a, id_key(), 0);
                assert(no_id_field(a));
                lemma_set_fields_keep_id(prev, a);
                lemma_unset_fields_keep_id(prev, a);
            },
            _ => {},
        }
    }
}

/// The documents that a filter does not select all come from the input.
pub proof fn lemma_reject_from(s: Seq<DocModel>, f: DocModel)
    ensures
        forall|i: int|
            0 <= i < reject(s, f).len() ==> exists|j: int|
                0 <= j < s.len() && #[trigger] reject(s, f)[i] == s[j],
        reject(s, f).len() <= s.len(),
    decreases s.len(),
{
    if s.len() > 0 {
        let p = s.drop_last();
        lemma_reject_from(p, f);
        let r = reject(s, f);
        assert forall|i: int| 0 <= i < r.len() implies exists|j: int|
            0 <= j < s.len() && #[trigger] r[i] == s[j] by {
            if i < reject(p, f).len() {
                assert(r[i] == reject(p, f)[i]);
                let j = choose|j: int| 0 <= j < p.len() && reject(p, f)[i] == p[j];
                assert(p[j] == s[j]);
            } else {
                assert(r[i] == s[s.len() - 1]);
            }
        }
    }
}

/// Removing the selected documents keeps the `_id`s keyed.
pub proof fn lemma_reject_keyed(s: Seq<DocModel>, f: DocModel)
    requires
        docs_keyed(s),
    ensures
        docs_keyed(reject(s, f)),
    decreases s.len(),
{
    if s.len() > 0 {
        let p = s.drop_last();
        assert(docs_keyed(p)) by {
            assert forall|i: int| 0 <= i < p.len() implies p[i] == s[i] by {}
            if p.len() > 0 {
                assert(p[0] == s[0]);
            }
        }
        lemma_reject_keyed(p, f);
        lemma_reject_from(p, f);
        lemma_reject_from(s, f);
        let r = reject(s, f);
        let rp = reject(p, f);
        if !doc_matches(s.last(), f) {
            assert(r == rp.push(s.last()));
            let x = s.last();
            assert(x == s[s.len() - 1]);
            assert forall|i: int| 0 <= i < rp.len() implies #[trigger] doc_id(rp[i]) != doc_id(x) by {
                let j = choose|j: int| 0 <= j < p.len() && rp[i] == p[j];
                assert(p[j] == s[j]);
            }
            assert forall|i: int| 0 <= i < r.len() implies value_kind((#[trigger] doc_id(r[i]))->0)
                == value_kind(doc_id(s[0])->0) by {
                let j = choose|j: int| 0 <= j < s.len() && r[i] == s[j];
            }
            assert forall|a: int, b: int|
                0 <= a < r.len() && 0 <= b < r.len() && a != b implies #[trigger] doc_id(r[a])
                != #[trigger] doc_id(r[b]) by {
                if a < rp.len() && b < rp.len() {
                    assert(r[a] == rp[a] && r[b] == rp[b]);
                } else if a < rp.len() {
                    assert(r[a] == rp[a]);
                } else if b < rp.len() {
                    assert(r[b] == rp[b]);
                }
            }
            assert forall|i: int| 0 <= i < r.len() implies (#[trigger] doc_id(r[i])) is Some by {
                let j = choose|j: int| 0 <= j < s.len() && r[i] == s[j];
            }
        }
    }
}

/// Removing one document keeps the `_id`s keyed.
pub proof fn lemma_remove_keyed(s: Seq<DocModel>, k: int)
    requires
        docs_keyed(s),
        0 <= k < s.len(),
    ensures
        docs_keyed(s.remove(k)),
{
    let r = s.remove(k);
    assert forall|i: int| 0 <= i < r.len() implies #[trigger] r[i] == s[if i < k { i } else { i + 1 }] by {}
    assert forall|a: int, b: int|
        0 <= a < r.len() && 0 <= b < r.len() && a != b implies #[trigger] doc_id(r[a]) != #[trigger] doc_id(
        r[b]) by {
        assert(r[a] == s[if a < k { a } else { a + 1 }]);
        assert(r[b] == s[if b < k { b } else { b + 1 }]);
    }
    assert forall|i: int| 0 <= i < r.len() implies value_kind((#[trigger] doc_id(r[i]))->0)
        == value_kind(doc_id(s[0])->0) by {
        assert(r[i] == s[if i < k { i } else { i + 1 }]);
    }
    if r.len() > 0 {
        assert(r[0] == s[if 0 < k { 0 } else { 1 }]);
    }
    assert forall|i: int| 0 <= i < r.len() implies (#[trigger] doc_id(r[i])) is Some by {
        assert(r[i] == s[if i < k { i } else { i + 1 }]);
    }
}

/// Replacing documents by ones with the same `_id`s keeps them keyed.
pub proof fn lemma_same_ids_keyed(s: Seq<DocModel>, t: Seq<DocModel>)
    requires
        docs_keyed(s),
        s.len() == t.len(),
        forall|i: int| 0 <= i < s.len() ==> doc_id(#[trigger] t[i]) == doc_id(s[i]),
    ensures
        docs_keyed(t),
{
    assert forall|a: int, b: int|
        0 <= a < t.len() && 0 <= b < t.len() && a != b implies #[trigger] doc_id(t[a]) != #[trigger] doc_id(
        t[b]) by {
        assert(doc_id(t[a]) == doc_id(s[a]));
        assert(doc_id(t[b]) == doc_id(s[b]));
    }
    if t.len() > 0 {
        assert(doc_id(t[0]) == doc_id(s[0]));
    }
    assert forall|i: int| 0 <= i < t.len() implies value_kind((#[trigger] doc_id(t[i]))->0)
        == value_kind(doc_id(t[0])->0) by {
        assert(doc_id(t[i]) == doc_id(s[i]));
    }
}

/// Removing one collection keeps the collections well formed.
pub proof fn lemma_remove_col_wf(cols: Seq<CollectionModel>, k: int)
    requires
        cols_wf(cols),
        0 <= k < cols.len(),
    ensures
        cols_wf(cols.remove(k)),
{
    let r = cols.remove(k);
    assert forall|a: int, b: int| 0 <= a < b < r.len() implies r[a].name != r[b].name by {
        assert(r[a] == cols[if a < k { a } else { a + 1 }]);
        assert(r[b] == cols[if b < k { b } else { b + 1 }]);
    }
    assert forall|i: int| 0 <= i < r.len() implies docs_keyed(#[trigger] r[i].docs) by {
        assert(r[i] == cols[if i < k { i } else { i + 1 }]);
    }
}

} // verus!
