//! The database's state and its operations: collections of documents,
//! sessions and a transaction.
use vstd::prelude::*;
use crate::value::{doc_insert, key_index_from, key_is, lemma_fields_view_index, lemma_fields_view_len, lemma_values_view_index, lemma_values_view_len, values_equal, values_view, Document, ObjectId, Value, ValueModel, DocModel};
use crate::error::DbErr;
use crate::query::{check_filter, doc_matches, doc_matches_filter, filter_valid};
use crate::update::{apply_update, apply_update_to, check_update, update_accepted, update_ops_valid};
use crate::update::id_key;
use crate::oid::new_object_id;
use crate::results::{InsertManyResult, InsertOneResult};
use crate::model::{
    auto_create, collection_names, cols_wf, empty_collection, err_kind, find_col, lemma_find_col, lemma_auto_create,
    names_unique, select, session_ok, doc_id, docs_keyed, insert_failure, value_kind, with_docs, with_id, insert_into, insert_all, lemma_insert_all_failed_prefix, update_selected, update_first, first_match, lemma_first_match_from, lemma_update_keeps_id, lemma_same_ids_keyed, reject, remove_first, lemma_reject_keyed, lemma_remove_keyed, lemma_remove_col_wf, store_wf, with_collections, CollectionModel, Failure, StoreModel,
    TransactionType,
};

verus! {

/// Settings that a database is opened with.
pub struct Config {
    pub init_block_count: u64,
    pub journal_full_size: u64,
}

impl Default for Config {
    fn default() -> (r: Config)
        ensures
            r.init_block_count == 16,
            r.journal_full_size == 1000,
    {
        Config { init_block_count: 16, journal_full_size: 1000 }
    }
}

/// One collection as stored.
pub struct CollectionData {
    pub name: String,
    pub docs: Vec<Document>,
    pub indexes: Vec<Document>,
}

/// Where a collection stands and what it is called.
pub struct CollectionMeta {
    pub id: usize,
    pub name: String,
}

pub open spec fn docs_view(s: Seq<Document>) -> Seq<DocModel> {
    Seq::new(s.len(), |i: int| s[i]@)
}

pub open spec fn cols_view(s: Seq<CollectionData>) -> Seq<CollectionModel> {
    Seq::new(s.len(), |i: int| s[i]@)
}

pub open spec fn ids_view(s: Seq<ObjectId>) -> Seq<Seq<u8>> {
    Seq::new(s.len(), |i: int| s[i].bytes@)
}

/// The model of an optional session argument.
pub open spec fn session_arg(s: Option<&ObjectId>) -> Option<Seq<u8>> {
    match s {
        Some(id) => Some(id.bytes@),
        None => None,
    }
}

impl View for CollectionData {
    type V = CollectionModel;

    open spec fn view(&self) -> CollectionModel {
        CollectionModel { name: self.name@, docs: docs_view(self.docs@), indexes: docs_view(self.indexes@) }
    }
}

/// The document `{ name: <name> }` that describes a collection.
pub open spec fn meta_doc(name: Seq<char>) -> DocModel {
    doc_insert(Seq::empty(), "name"@, ValueModel::String(name))
}

/// One such document per collection.
pub open spec fn metas_of(cols: Seq<CollectionModel>) -> Seq<DocModel> {
    Seq::new(cols.len(), |i: int| meta_doc(cols[i].name))
}

/// The filter that an optional filter argument stands for: none selects all.
pub open spec fn filter_of(f: Option<&Document>) -> DocModel {
    match f {
        Some(d) => d@,
        None => Seq::empty(),
    }
}

/// The number of the kind of a value.
pub fn value_kind_of(v: &Value) -> (r: u8)
    ensures
        r == value_kind(v@),
{
    match v {
        Value::Null => 0,
        Value::Boolean(_) => 1,
        Value::Int32(_) => 2,
        Value::Int64(_) => 3,
        Value::String(_) => 4,
        Value::Binary { .. } => 5,
        Value::ObjectId(_) => 6,
        Value::Document(_) => 7,
        Value::Array(_) => 8,
        Value::DateTime(_) => 9,
        Value::Timestamp { .. } => 10,
        Value::Decimal128(_) => 11,
        Value::RegularExpression { .. } => 12,
        Value::JavaScriptCode(_) => 13,
        Value::JavaScriptCodeWithScope { .. } => 14,
        Value::Symbol(_) => 15,
        Value::Undefined => 16,
        Value::MaxKey => 17,
        Value::MinKey => 18,
    }
}

/// The `_id` of a document that has one.
fn id_field_of(d: &Document) -> (r: &Value)
    requires
        doc_id(d@) is Some,
    ensures
        doc_id(d@) == Some(r@),
{
    d.get("_id").unwrap()
}

/// The document with `fresh` as `_id` in front, where it has no `_id`.
fn attach_id(doc: Document, fresh: ObjectId) -> (r: Document)
    ensures
        r@ == with_id(doc@, fresh.bytes@),
        doc_id(r@) is Some,
{
    if doc.get("_id").is_some() {
        doc
    } else {
        let ghost d = doc@;
        let ghost old_fields = doc.fields@;
        let mut fields: Vec<(String, Value)> = Vec::new();
        fields.push(("_id".to_owned(), Value::ObjectId(fresh)));
        let mut rest = doc.fields;
        fields.append(&mut rest);
        let r = Document { fields };
        proof {
            let w = seq![(id_key(), ValueModel::ObjectId(fresh.bytes@))] + d;
            lemma_fields_view_len(r.fields@);
            lemma_fields_view_len(old_fields);
            assert forall|i: int| 0 <= i < w.len() implies #[trigger] r@[i] == w[i] by {
                lemma_fields_view_index(r.fields@, i);
                if i > 0 {
                    lemma_fields_view_index(old_fields, i - 1);
                }
            }
            assert(r@ =~= w);
            assert(key_index_from(w, id_key(), 0) == Some(0int));
        }
        r
    }
}

/// A result by the model of its value and the kind of its error.
pub open spec fn value_result(r: Result<Value, DbErr>) -> Result<ValueModel, Failure> {
    match r {
        Ok(v) => Ok(v@),
        Err(e) => Err(err_kind(e)),
    }
}

pub open spec fn insert_one_result(r: Result<InsertOneResult, DbErr>) -> Result<ValueModel, Failure> {
    match r {
        Ok(v) => Ok(v.inserted_id@),
        Err(e) => Err(err_kind(e)),
    }
}

/// What inserting `d` into the collection named `name` does, where `fresh`
/// becomes the `_id` of a document without one: the `_id` stored, or the failure.
pub open spec fn insert_one_outcome(
    old: StoreModel,
    new: StoreModel,
    name: Seq<char>,
    d: DocModel,
    fresh: Seq<u8>,
    session: Option<Seq<u8>>,
    r: Result<ValueModel, Failure>,
) -> bool {
    if !session_ok(old, session) {
        r == Err::<ValueModel, Failure>(Failure::SessionOutdated) && new == old
    } else {
        match insert_into(old.collections, name, with_id(d, fresh)) {
            Ok(cs) => r == Ok::<ValueModel, Failure>(doc_id(with_id(d, fresh))->0) && new
                == with_collections(old, cs),
            Err(f) => r == Err::<ValueModel, Failure>(f) && new == old,
        }
    }
}

pub open spec fn values_result(r: Result<Vec<Value>, DbErr>) -> Result<Seq<ValueModel>, Failure> {
    match r {
        Ok(v) => Ok(values_view(v@)),
        Err(e) => Err(err_kind(e)),
    }
}

pub open spec fn insert_many_result(r: Result<InsertManyResult, DbErr>) -> Result<Seq<ValueModel>, Failure> {
    match r {
        Ok(v) => Ok(values_view(v.inserted_ids@)),
        Err(e) => Err(err_kind(e)),
    }
}

/// What inserting the documents `ds` in turn into the collection named
/// `name` does, where `fresh[i]` becomes the `_id` of `ds[i]` if it has none:
/// the `_id`s stored, or the first failure with nothing changed.
pub open spec fn insert_many_outcome(
    old: StoreModel,
    new: StoreModel,
    name: Seq<char>,
    ds: Seq<DocModel>,
    fresh: Seq<Seq<u8>>,
    session: Option<Seq<u8>>,
    r: Result<Seq<ValueModel>, Failure>,
) -> bool {
    if !session_ok(old, session) {
        r == Err::<Seq<ValueModel>, Failure>(Failure::SessionOutdated) && new == old
    } else {
        match insert_all(old.collections, name, ds, fresh) {
            Ok(p) => r == Ok::<Seq<ValueModel>, Failure>(p.1) && new == with_collections(old, p.0),
            Err(f) => r == Err::<Seq<ValueModel>, Failure>(f) && new == old,
        }
    }
}

/// The kind of a transaction that was asked for: writing where none is named.
pub open spec fn transaction_type_of(ty: Option<TransactionType>) -> TransactionType {
    match ty {
        Some(t) => t,
        None => TransactionType::Write,
    }
}

/// The sessions other than `id`, in order.
pub open spec fn without_session(s: Seq<Seq<u8>>, id: Seq<u8>) -> Seq<Seq<u8>>
    decreases s.len(),
{
    if s.len() == 0 {
        s
    } else if s.last() == id {
        without_session(s.drop_last(), id)
    } else {
        without_session(s.drop_last(), id).push(s.last())
    }
}

/// A copy of all collections with their documents.
pub struct FullDump {
    pub collections: Vec<CollectionData>,
}

/// The state of a database.
pub struct DbContext {
    collections: Vec<CollectionData>,
    transaction: Option<(TransactionType, Vec<CollectionData>)>,
    sessions: Vec<ObjectId>,
    config: Config,
}

impl View for DbContext {
    type V = StoreModel;

    closed spec fn view(&self) -> StoreModel {
        StoreModel {
            collections: cols_view(self.collections@),
            transaction: match self.transaction {
                Some(t) => Some((t.0, cols_view(t.1@))),
                None => None,
            },
            sessions: ids_view(self.sessions@),
        }
    }
}

fn copy_docs(s: &Vec<Document>) -> (r: Vec<Document>)
    ensures
        docs_view(r@) == docs_view(s@),
{
    let mut r: Vec<Document> = Vec::new();
    let mut i: usize = 0;
    while i < s.len()
        invariant
            i <= s.len(),
            r@.len() == i,
            forall|j: int| 0 <= j < i ==> (#[trigger] r@[j])@ == s@[j]@,
        decreases s.len() - i,
    {
        let x = s[i].duplicate();
        r.push(x);
        i = i + 1;
    }
    assert(docs_view(r@) =~= docs_view(s@));
    r
}

impl CollectionData {
    pub fn duplicate(&self) -> (r: CollectionData)
        ensures
            r@ == self@,
    {
        CollectionData { name: self.name.clone(), docs: copy_docs(&self.docs), indexes: copy_docs(&self.indexes) }
    }
}

fn copy_collections(s: &Vec<CollectionData>) -> (r: Vec<CollectionData>)
    ensures
        cols_view(r@) == cols_view(s@),
{
    let mut r: Vec<CollectionData> = Vec::new();
    let mut i: usize = 0;
    while i < s.len()
        invariant
            i <= s.len(),
            r@.len() == i,
            forall|j: int| 0 <= j < i ==> (#[trigger] r@[j])@ == s@[j]@,
        decreases s.len() - i,
    {
        let x = s[i].duplicate();
        r.push(x);
        i = i + 1;
    }
    assert(cols_view(r@) =~= cols_view(s@));
    r
}

impl DbContext {
    /// The invariant of the database.
    pub open spec fn wf(&self) -> bool {
        store_wf(self@)
    }

    /// An empty database.
    pub fn new(config: Config) -> (r: DbContext)
        ensures
            r@ == (StoreModel {
                collections: Seq::empty(),
                transaction: None,
                sessions: Seq::empty(),
            }),
            r.wf(),
    {
        let r = DbContext { collections: Vec::new(), transaction: None, sessions: Vec::new(), config };
        assert(r@.collections =~= Seq::<CollectionModel>::empty());
        assert(r@.sessions =~= Seq::<Seq<u8>>::empty());
        r
    }

    /// Whether the session argument is absent or names an open session.
    pub fn check_session(&self, session: Option<&ObjectId>) -> (r: bool)
        ensures
            r == session_ok(self@, session_arg(session)),
    {
        match session {
            None => true,
            Some(id) => {
                let mut i: usize = 0;
                while i < self.sessions.len()
                    invariant
                        session == Some(id),
                        i <= self.sessions.len(),
                        forall|j: int| 0 <= j < i ==> self@.sessions[j] != id.bytes@,
                    decreases self.sessions.len() - i,
                {
                    if self.sessions[i].same_as(id) {
                        assert(self@.sessions[i as int] == id.bytes@);
                        assert(self@.sessions.contains(id.bytes@));
                        return true;
                    }
                    i = i + 1;
                }
                false
            },
        }
    }

    /// The position of the collection named `name`.
    pub fn find_collection(&self, name: &str) -> (r: Option<usize>)
        ensures
            match r {
                Some(i) => find_col(self@.collections, name@) == Some(i as int),
                None => find_col(self@.collections, name@) is None,
            },
    {
        let ghost cols = self@.collections;
        proof {
            lemma_find_col(cols, name@);
        }
        let mut i: usize = 0;
        while i < self.collections.len()
            invariant
                i <= self.collections.len(),
                cols == self@.collections,
                cols.len() == self.collections.len(),
                forall|m: int| 0 <= m < i ==> cols[m].name != name@,
            decreases self.collections.len() - i,
        {
            if key_is(&self.collections[i].name, name) {
                assert(cols[i as int] == self.collections@[i as int]@);
                assert(self.collections@[i as int].name@ == name@);
                assert(cols[i as int].name == name@);
                proof {
                    lemma_find_col(cols, name@);
                }
                return Some(i);
            }
            i = i + 1;
        }
        proof {
            lemma_find_col(cols, name@);
        }
        None
    }

    /// Creates an empty collection named `name`.
    pub fn create_collection(&mut self, name: &str, session: Option<&ObjectId>) -> (r: Result<
        CollectionMeta,
        DbErr,
    >)
        requires
            old(self).wf(),
        ensures
            final(self).wf(),
            match r {
                Ok(meta) => {
                    &&& session_ok(old(self)@, session_arg(session))
                    &&& find_col(old(self)@.collections, name@) is None
                    &&& final(self)@ == with_collections(
                        old(self)@,
                        old(self)@.collections.push(empty_collection(name@)),
                    )
                    &&& meta.id == old(self)@.collections.len()
                    &&& meta.name@ == name@
                },
                Err(e) => {
                    &&& final(self)@ == old(self)@
                    &&& !session_ok(old(self)@, session_arg(session)) ==> err_kind(e)
                        == Failure::SessionOutdated
                    &&& session_ok(old(self)@, session_arg(session)) ==> {
                        &&& find_col(old(self)@.collections, name@) is Some
                        &&& e matches DbErr::CollectionAlreadyExits(n) && n@ == name@
                    }
                },
            },
    {
        if !self.check_session(session) {
            return Err(DbErr::SessionOutdated);
        }
        match self.find_collection(name) {
            Some(_) => Err(DbErr::CollectionAlreadyExits(name.to_owned())),
            None => {
                let id = self.collections.len();
                let c = CollectionData { name: name.to_owned(), docs: Vec::new(), indexes: Vec::new() };
                proof {
                    lemma_find_col(old(self)@.collections, name@);
                    assert(c@.docs =~= Seq::<DocModel>::empty());
                    assert(c@.indexes =~= Seq::<DocModel>::empty());
                }
                self.collections.push(c);
                assert(self@.collections =~= old(self)@.collections.push(empty_collection(name@)));
                Ok(CollectionMeta { id, name: name.to_owned() })
            },
        }
    }

    /// Looks up the collection named `name`, creating it where it is missing
    /// and `create_if_not_exist` holds.
    pub fn get_collection_meta_by_name_advanced_auto(
        &mut self,
        name: &str,
        create_if_not_exist: bool,
        session: Option<&ObjectId>,
    ) -> (r: Result<Option<CollectionMeta>, DbErr>)
        requires
            old(self).wf(),
        ensures
            final(self).wf(),
            match r {
                Ok(found) => {
                    &&& session_ok(old(self)@, session_arg(session))
                    &&& final(self)@ == (if create_if_not_exist {
                        with_collections(old(self)@, auto_create(old(self)@.collections, name@))
                    } else {
                        old(self)@
                    })
                    &&& match found {
                        Some(meta) => find_col(final(self)@.collections, name@) == Some(meta.id as int)
                            && meta.name@ == name@,
                        None => find_col(final(self)@.collections, name@) is None,
                    }
                },
                Err(e) => {
                    &&& !session_ok(old(self)@, session_arg(session))
                    &&& err_kind(e) == Failure::SessionOutdated
                    &&& final(self)@ == old(self)@
                },
            },
    {
        if !self.check_session(session) {
            return Err(DbErr::SessionOutdated);
        }
        match self.find_collection(name) {
            Some(id) => Ok(Some(CollectionMeta { id, name: name.to_owned() })),
            None => {
                if create_if_not_exist {
                    let meta = self.create_collection(name, session);
                    match meta {
                        Ok(meta) => {
                            proof {
                                let cs = final(self)@.collections;
                                lemma_find_col(cs, name@);
                                lemma_find_col(old(self)@.collections, name@);
                                assert(cs[meta.id as int].name == name@);
                            }
                            Ok(Some(meta))
                        },
                        Err(e) => Err(e),
                    }
                } else {
                    Ok(None)
                }
            },
        }
    }

    /// The collection named `name`, or `CollectionNotFound`.
    pub fn get_collection_meta_by_name(&self, name: &str, session: Option<&ObjectId>) -> (r: Result<
        CollectionMeta,
        DbErr,
    >)
        ensures
            match r {
                Ok(meta) => {
                    &&& session_ok(self@, session_arg(session))
                    &&& find_col(self@.collections, name@) == Some(meta.id as int)
                    &&& meta.name@ == name@
                },
                Err(e) => {
                    &&& !session_ok(self@, session_arg(session)) ==> err_kind(e)
                        == Failure::SessionOutdated
                    &&& session_ok(self@, session_arg(session)) ==> {
                        &&& find_col(self@.collections, name@) is None
                        &&& e matches DbErr::CollectionNotFound(n) && n@ == name@
                    }
                },
            },
    {
        if !self.check_session(session) {
            return Err(DbErr::SessionOutdated);
        }
        match self.find_collection(name) {
            Some(id) => Ok(CollectionMeta { id, name: name.to_owned() }),
            None => Err(DbErr::CollectionNotFound(name.to_owned())),
        }
    }

    /// One document `{ name: <collection name> }` per collection, in order.
    pub fn query_all_meta(&self, session: Option<&ObjectId>) -> (r: Result<Vec<Document>, DbErr>)
        ensures
            match r {
                Ok(metas) => session_ok(self@, session_arg(session)) && docs_view(metas@)
                    == metas_of(self@.collections),
                Err(e) => !session_ok(self@, session_arg(session)) && err_kind(e)
                    == Failure::SessionOutdated,
            },
    {
        if !self.check_session(session) {
            return Err(DbErr::SessionOutdated);
        }
        let mut r: Vec<Document> = Vec::new();
        let mut i: usize = 0;
        while i < self.collections.len()
            invariant
                i <= self.collections.len(),
                r@.len() == i,
                forall|j: int| 0 <= j < i ==> (#[trigger] r@[j])@ == meta_doc(self@.collections[j].name),
            decreases self.collections.len() - i,
        {
            let mut d = Document::new();
            d.insert("name".to_owned(), Value::String(self.collections[i].name.clone()));
            r.push(d);
            i = i + 1;
        }
        assert(docs_view(r@) =~= metas_of(self@.collections));
        Ok(r)
    }

    /// The names of the collections, in order.
    pub fn collection_names(&self) -> (r: Vec<String>)
        ensures
            r@.len() == self@.collections.len(),
            forall|i: int| 0 <= i < r@.len() ==> (#[trigger] r@[i])@ == collection_names(self@.collections)[i],
    {
        let mut r: Vec<String> = Vec::new();
        let mut i: usize = 0;
        while i < self.collections.len()
            invariant
                i <= self.collections.len(),
                r@.len() == i,
                forall|j: int| 0 <= j < i ==> (#[trigger] r@[j])@ == self@.collections[j].name,
            decreases self.collections.len() - i,
        {
            r.push(self.collections[i].name.clone());
            i = i + 1;
        }
        r
    }

    /// The number of documents in the collection at `col`.
    pub fn count(&self, col: usize, session: Option<&ObjectId>) -> (r: Result<u64, DbErr>)
        requires
            col < self@.collections.len(),
        ensures
            match r {
                Ok(n) => session_ok(self@, session_arg(session)) && n == self@.collections[col as int].docs.len(),
                Err(e) => !session_ok(self@, session_arg(session)) && err_kind(e)
                    == Failure::SessionOutdated,
            },
    {
        if !self.check_session(session) {
            return Err(DbErr::SessionOutdated);
        }
        Ok(self.collections[col].docs.len() as u64)
    }


    /// The documents of the collection at `col` that the filter selects, in order.
    pub fn find(&self, col: usize, filter: Option<&Document>, session: Option<&ObjectId>) -> (r: Result<
        Vec<Document>,
        DbErr,
    >)
        requires
            col < self@.collections.len(),
        ensures
            match r {
                Ok(found) => {
                    &&& session_ok(self@, session_arg(session))
                    &&& filter_valid(filter_of(filter))
                    &&& docs_view(found@) == select(self@.collections[col as int].docs, filter_of(filter))
                },
                Err(e) => {
                    &&& !session_ok(self@, session_arg(session)) ==> err_kind(e)
                        == Failure::SessionOutdated
                    &&& session_ok(self@, session_arg(session)) ==> !filter_valid(filter_of(filter))
                        && err_kind(e) == Failure::InvalidQuery
                },
            },
    {
        if !self.check_session(session) {
            return Err(DbErr::SessionOutdated);
        }
        let empty = Document::new();
        let f: &Document = match filter {
            Some(f) => f,
            None => &empty,
        };
        match check_filter(f) {
            Err(e) => return Err(e),
            Ok(()) => {},
        }
        let docs = &self.collections[col].docs;
        let ghost ds = docs_view(docs@);
        let mut r: Vec<Document> = Vec::new();
        let mut i: usize = 0;
        while i < docs.len()
            invariant
                i <= docs.len(),
                ds == docs_view(docs@),
                filter_valid(f@),
                docs_view(r@) == select(ds.take(i as int), f@),
            decreases docs.len() - i,
        {
            let ghost before = r@;
            proof {
                assert(ds.take(i + 1).drop_last() =~= ds.take(i as int));
                assert(ds.take(i + 1).last() == docs@[i as int]@);
            }
            if doc_matches_filter(&docs[i], f) {
                r.push(docs[i].duplicate());
                assert(docs_view(r@) =~= docs_view(before).push(docs@[i as int]@));
            }
            i = i + 1;
        }
        assert(ds.take(docs.len() as int) =~= ds);
        Ok(r)
    }


    /// Appends `doc`, which has an `_id`, to the collection at `col`, unless
    /// its `_id` is of another kind than the collection's or equals one there.
    fn insert_doc(&mut self, col: usize, doc: Document) -> (r: Result<(), DbErr>)
        requires
            old(self).wf(),
            col < old(self)@.collections.len(),
            doc_id(doc@) is Some,
        ensures
            final(self).wf(),
            match insert_failure(old(self)@.collections[col as int].docs, doc@) {
                Some(f) => r matches Err(e) && err_kind(e) == f && final(self)@ == old(self)@,
                None => r is Ok && final(self)@ == with_collections(
                    old(self)@,
                    old(self)@.collections.update(
                        col as int,
                        with_docs(
                            old(self)@.collections[col as int],
                            old(self)@.collections[col as int].docs.push(doc@),
                        ),
                    ),
                ),
            },
    {
        let ghost docs = old(self)@.collections[col as int].docs;
        let n = self.collections[col].docs.len();
        let id = id_field_of(&doc);
        let k = value_kind_of(id);
        if n > 0 {
            let k0 = value_kind_of(id_field_of(&self.collections[col].docs[0]));
            if k0 != k {
                return Err(DbErr::UnexpectedIdType);
            }
        }
        let mut j: usize = 0;
        while j < n
            invariant
                j <= n,
                n == self.collections@[col as int].docs@.len(),
                col < self.collections@.len(),
                self@ == old(self)@,
                docs == old(self)@.collections[col as int].docs,
                old(self).wf(),
                Some(id@) == doc_id(doc@),
                forall|m: int| 0 <= m < j ==> doc_id(docs[m]) != doc_id(doc@),
            decreases n - j,
        {
            proof {
                assert(docs[j as int] == self.collections@[col as int].docs@[j as int]@);
                assert(docs_keyed(docs));
                assert(doc_id(docs[j as int]) is Some);
            }
            let other = id_field_of(&self.collections[col].docs[j]);
            if values_equal(other, id) {
                assert(doc_id(docs[j as int]) == doc_id(doc@));
                return Err(DbErr::DuplicateKey);
            }
            j = j + 1;
        }
        let ghost d = doc@;
        self.collections[col].docs.push(doc);
        proof {
            let c0 = old(self)@.collections[col as int];
            let cs = old(self)@.collections.update(col as int, with_docs(c0, c0.docs.push(d)));
            assert(self@.collections[col as int].docs =~= c0.docs.push(d));
            assert(self@.collections =~= cs);
            assert(insert_failure(docs, d) is None);
            let nd = docs.push(d);
            assert(docs_keyed(docs));
            assert forall|a: int, b: int|
                0 <= a < nd.len() && 0 <= b < nd.len() && a != b implies #[trigger] doc_id(nd[a])
                != #[trigger] doc_id(nd[b]) by {
                if a < docs.len() && b < docs.len() {
                    assert(nd[a] == docs[a] && nd[b] == docs[b]);
                }
            }
            assert(docs_keyed(nd));
            assert(cols_wf(self@.collections)) by {
                assert forall|i: int| 0 <= i < self@.collections.len() implies docs_keyed(
                    #[trigger] self@.collections[i].docs,
                ) by {
                    if i != col {
                        assert(self@.collections[i] == old(self)@.collections[i]);
                    }
                }
            }
        }
        Ok(())
    }


    /// Inserts `doc` into the collection named `name`, creating the collection
    /// where it is missing; a document without `_id` gets `fresh` as its `_id`
    /// in front. Gives the `_id` of the stored document.
    pub fn insert_one_with_id(
        &mut self,
        name: &str,
        doc: Document,
        fresh: ObjectId,
        session: Option<&ObjectId>,
    ) -> (r: Result<Value, DbErr>)
        requires
            old(self).wf(),
        ensures
            final(self).wf(),
            insert_one_outcome(
                old(self)@,
                final(self)@,
                name@,
                doc@,
                fresh.bytes@,
                session_arg(session),
                value_result(r),
            ),
    {
        if !self.check_session(session) {
            return Err(DbErr::SessionOutdated);
        }
        let ghost before = self@;
        proof {
            lemma_auto_create(before.collections, name@);
        }
        let meta = self.get_collection_meta_by_name_advanced_auto(name, true, session);
        let col = match meta {
            Ok(Some(m)) => m.id,
            _ => {
                assert(false);
                return Err(DbErr::SessionOutdated);
            },
        };
        let ghost d = with_id(doc@, fresh.bytes@);
        let stored = attach_id(doc, fresh);
        let id = id_field_of(&stored).duplicate();
        proof {
            lemma_find_col(before.collections, name@);
            lemma_find_col(self@.collections, name@);
            if find_col(before.collections, name@) is None {
                assert(self@.collections[col as int] == empty_collection(name@));
                assert(self@.collections[col as int].docs.len() == 0);
            }
        }
        match self.insert_doc(col, stored) {
            Ok(()) => Ok(id),
            Err(e) => Err(e),
        }
    }


    /// Inserts `doc` into the collection named `name` as `insert_one_with_id`
    /// does, with a fresh identifier for a document that has no `_id`.
    pub fn insert_one_auto(&mut self, name: &str, doc: Document, session: Option<&ObjectId>) -> (r:
        Result<InsertOneResult, DbErr>)
        requires
            old(self).wf(),
        ensures
            final(self).wf(),
            exists|fresh: Seq<u8>|
                insert_one_outcome(
                    old(self)@,
                    final(self)@,
                    name@,
                    doc@,
                    fresh,
                    session_arg(session),
                    #[trigger] insert_one_result(r),
                ),
    {
        let fresh = new_object_id();
        let r = self.insert_one_with_id(name, doc, fresh, session);
        let out = match r {
            Ok(id) => Ok(InsertOneResult { inserted_id: id }),
            Err(e) => Err(e),
        };
        assert(insert_one_result(out) == value_result(r));
        out
    }


    /// Inserts the documents in order into the collection named `name`,
    /// creating it where it is missing; the `i`-th document, where it has no
    /// `_id`, gets `fresh[i]`. All or nothing: on a failure the database is
    /// left as it was. Gives the `_id`s of the stored documents in order.
    pub fn insert_many_with_ids(
        &mut self,
        name: &str,
        docs: Vec<Document>,
        fresh: &Vec<ObjectId>,
        session: Option<&ObjectId>,
    ) -> (r: Result<Vec<Value>, DbErr>)
        requires
            old(self).wf(),
            fresh@.len() == docs@.len(),
        ensures
            final(self).wf(),
            insert_many_outcome(
                old(self)@,
                final(self)@,
                name@,
                docs_view(docs@),
                ids_view(fresh@),
                session_arg(session),
                values_result(r),
            ),
    {
        if !self.check_session(session) {
            return Err(DbErr::SessionOutdated);
        }
        let ghost old_m = self@;
        let ghost ds = docs_view(docs@);
        let ghost fs = ids_view(fresh@);
        proof {
            lemma_auto_create(old_m.collections, name@);
        }
        let existed = self.find_collection(name).is_some();
        let meta = self.get_collection_meta_by_name_advanced_auto(name, true, session);
        let col = match meta {
            Ok(Some(m)) => m.id,
            _ => {
                assert(false);
                return Err(DbErr::SessionOutdated);
            },
        };
        proof {
            lemma_find_col(self@.collections, name@);
        }
        let ghost start = self@.collections;
        let n0 = self.collections[col].docs.len();
        let mut ids: Vec<Value> = Vec::new();
        let mut i: usize = 0;
        assert(ds.take(0) =~= Seq::<DocModel>::empty());
        assert(values_view(ids@) =~= Seq::<ValueModel>::empty());
        while i < docs.len()
            invariant
                i <= docs.len(),
                fresh@.len() == docs@.len(),
                ds == docs_view(docs@),
                fs == ids_view(fresh@),
                self.wf(),
                old_m == old(self)@,
                store_wf(old_m),
                session_ok(old_m, session_arg(session)),
                start == auto_create(old_m.collections, name@),
                existed == find_col(old_m.collections, name@) is Some,
                col < start.len(),
                find_col(start, name@) == Some(col as int),
                n0 == start[col as int].docs.len(),
                self@.transaction == old_m.transaction,
                self@.sessions == old_m.sessions,
                self@.collections.len() == start.len(),
                forall|j: int| 0 <= j < start.len() && j != col ==> self@.collections[j] == start[j],
                self@.collections[col as int].name == start[col as int].name,
                self@.collections[col as int].indexes == start[col as int].indexes,
                self@.collections[col as int].docs.len() >= n0,
                self@.collections[col as int].docs.take(n0 as int) == start[col as int].docs,
                insert_all(old_m.collections, name@, ds.take(i as int), fs) == Ok::<
                    (Seq<CollectionModel>, Seq<ValueModel>),
                    Failure,
                >((self@.collections, values_view(ids@))),
            decreases docs.len() - i,
        {
            let ghost cur = self@;
            proof {
                assert(ds.take(i + 1).drop_last() =~= ds.take(i as int));
                assert(ds.take(i + 1).last() == docs@[i as int]@);
                lemma_find_col(start, name@);
                lemma_find_col(cur.collections, name@);
                assert(find_col(cur.collections, name@) == Some(col as int));
                lemma_auto_create(cur.collections, name@);
            }
            let d = attach_id(docs[i].duplicate(), fresh[i]);
            let id = id_field_of(&d).duplicate();
            match self.insert_doc(col, d) {
                Ok(()) => {
                    let ghost before_ids = ids@;
                    ids.push(id);
                    proof {
                        assert(values_view(ids@) =~= values_view(before_ids).push(id@)) by {
                            lemma_values_view_len(ids@);
                            lemma_values_view_len(before_ids);
                            assert forall|j: int| 0 <= j < ids@.len() implies #[trigger] values_view(ids@)[j] == values_view(before_ids).push(id@)[j] by {
                                lemma_values_view_index(ids@, j);
                                if j < before_ids.len() {
                                    lemma_values_view_index(before_ids, j);
                                }
                            }
                        }
                        let c = self@.collections[col as int].docs;
                        assert(c.take(n0 as int) =~= cur.collections[col as int].docs.take(n0 as int));
                    }
                },
                Err(e) => {
                    proof {
                        lemma_insert_all_failed_prefix(old_m.collections, name@, ds, fs, i + 1);
                    }
                    self.collections[col].docs.truncate(n0);
                    assert(self@.collections[col as int].docs =~= start[col as int].docs);
                    assert(self@.collections =~= start);
                    if !existed {
                        assert(start == old_m.collections.push(empty_collection(name@)));
                        let ghost prev = self.collections@;
                        self.collections.pop();
                        assert(self.collections@ == prev.drop_last());
                        assert(cols_view(prev) == start);
                        assert forall|j: int| 0 <= j < old_m.collections.len() implies #[trigger] self@.collections[j] == old_m.collections[j] by {
                            assert(self@.collections[j] == prev[j]@);
                            assert(start[j] == prev[j]@);
                        }
                        assert(self@.collections =~= old_m.collections);
                    } else {
                        assert(start == old_m.collections);
                    }
                    assert(self@ == old_m);
                    return Err(e);
                },
            }
            i = i + 1;
        }
        assert(ds.take(docs.len() as int) =~= ds);
        Ok(ids)
    }

    /// Inserts the documents as `insert_many_with_ids` does, with a fresh
    /// identifier for each document that has no `_id`.
    pub fn insert_many_auto(&mut self, name: &str, docs: Vec<Document>, session: Option<&ObjectId>) -> (r:
        Result<InsertManyResult, DbErr>)
        requires
            old(self).wf(),
        ensures
            final(self).wf(),
            exists|fresh: Seq<Seq<u8>>|
                fresh.len() == docs@.len() && insert_many_outcome(
                    old(self)@,
                    final(self)@,
                    name@,
                    docs_view(docs@),
                    fresh,
                    session_arg(session),
                    #[trigger] insert_many_result(r),
                ),
    {
        let mut fresh: Vec<ObjectId> = Vec::new();
        let mut i: usize = 0;
        while i < docs.len()
            invariant
                i <= docs.len(),
                fresh@.len() == i,
            decreases docs.len() - i,
        {
            fresh.push(new_object_id());
            i = i + 1;
        }
        let ghost dv = docs_view(docs@);
        let r = self.insert_many_with_ids(name, docs, &fresh, session);
        let out = match r {
            Ok(ids) => Ok(InsertManyResult { inserted_ids: ids }),
            Err(e) => Err(e),
        };
        assert(insert_many_result(out) == values_result(r));
        assert(ids_view(fresh@).len() == dv.len());
        out
    }


    /// Updates, in the collection at `col`, every document that the filter
    /// selects (`multi`) or the first one; gives how many were updated.
    pub fn update(
        &mut self,
        col: usize,
        filter: &Document,
        update: &Document,
        multi: bool,
        session: Option<&ObjectId>,
    ) -> (r: Result<usize, DbErr>)
        requires
            old(self).wf(),
            col < old(self)@.collections.len(),
        ensures
            final(self).wf(),
            match r {
                Ok(n) => {
                    let c = old(self)@.collections[col as int];
                    &&& session_ok(old(self)@, session_arg(session))
                    &&& filter_valid(filter@)
                    &&& update_accepted(update@)
                    &&& final(self)@ == with_collections(
                        old(self)@,
                        old(self)@.collections.update(
                            col as int,
                            with_docs(
                                c,
                                if multi {
                                    update_selected(c.docs, filter@, update@)
                                } else {
                                    update_first(c.docs, filter@, update@)
                                },
                            ),
                        ),
                    )
                    &&& n == (if multi {
                        select(c.docs, filter@).len() as int
                    } else if first_match(c.docs, filter@) is Some {
                        1int
                    } else {
                        0int
                    })
                },
                Err(e) => {
                    &&& final(self)@ == old(self)@
                    &&& !session_ok(old(self)@, session_arg(session)) ==> err_kind(e)
                        == Failure::SessionOutdated
                    &&& session_ok(old(self)@, session_arg(session)) && !filter_valid(filter@)
                        ==> err_kind(e) == Failure::InvalidQuery
                    &&& session_ok(old(self)@, session_arg(session)) && filter_valid(filter@) ==> {
                        &&& !update_accepted(update@)
                        &&& !update_ops_valid(update@) ==> err_kind(e) == Failure::InvalidUpdate
                        &&& update_ops_valid(update@) ==> err_kind(e)
                            == Failure::UnableToUpdatePrimaryKey
                    }
                },
            },
    {
        if !self.check_session(session) {
            return Err(DbErr::SessionOutdated);
        }
        match check_filter(filter) {
            Err(e) => return Err(e),
            Ok(()) => {},
        }
        match check_update(update) {
            Err(e) => return Err(e),
            Ok(()) => {},
        }
        let ghost old_m = self@;
        let ghost c = old_m.collections[col as int];
        let ghost orig = c.docs;
        let mut docs: Vec<Document> = Vec::new();
        std::mem::swap(&mut docs, &mut self.collections[col].docs);
        assert(docs_view(docs@) == orig);
        let n = docs.len();
        let mut count: usize = 0;
        let mut i: usize = 0;
        if multi {
            while i < n
                invariant
                    i <= n,
                    n == docs@.len(),
                    orig.len() == n,
                    filter_valid(filter@),
                    update_accepted(update@),
                    count <= i,
                    count == select(orig.take(i as int), filter@).len(),
                    forall|j: int|
                        0 <= j < n ==> (#[trigger] docs@[j])@ == (if j < i && doc_matches(
                            orig[j],
                            filter@,
                        ) {
                            apply_update(orig[j], update@)
                        } else {
                            orig[j]
                        }),
                decreases n - i,
            {
                proof {
                    assert(orig.take(i + 1).drop_last() =~= orig.take(i as int));
                    assert(orig.take(i + 1).last() == orig[i as int]);
                }
                let m = doc_matches_filter(&docs[i], filter);
                if m {
                    let ghost before = docs@;
                    apply_update_to(&mut docs[i], update);
                    assert forall|j: int| 0 <= j < n && j != i implies #[trigger] docs@[j] == before[j] by {}
                    count = count + 1;
                }
                i = i + 1;
            }
            proof {
                assert(orig.take(n as int) =~= orig);
                let t = docs_view(docs@);
                assert(t =~= update_selected(orig, filter@, update@));
                assert forall|j: int| 0 <= j < orig.len() implies doc_id(#[trigger] t[j]) == doc_id(orig[j]) by {
                    lemma_update_keeps_id(orig[j], update@);
                }
                lemma_same_ids_keyed(orig, t);
            }
        } else {
            proof {
                lemma_first_match_from(orig, filter@, 0);
            }
            let mut found = false;
            while i < n && !found
                invariant
                    i <= n,
                    n == docs@.len(),
                    orig.len() == n,
                    filter_valid(filter@),
                    update_accepted(update@),
                    forall|j: int| 0 <= j < n && j != i ==> (#[trigger] docs@[j])@ == orig[j],
                    !found ==> docs@[i as int]@ == orig[i as int] || i == n,
                    !found ==> count == 0,
                    !found ==> forall|j: int| 0 <= j < i ==> !doc_matches(#[trigger] orig[j], filter@),
                    found ==> i < n && count == 1 && first_match(orig, filter@) == Some(i as int)
                        && docs@[i as int]@ == apply_update(orig[i as int], update@),
                decreases n - i, if found { 0int } else { 1int },
            {
                let m = doc_matches_filter(&docs[i], filter);
                if m {
                    let ghost before = docs@;
                    apply_update_to(&mut docs[i], update);
                    assert forall|j: int| 0 <= j < n && j != i implies #[trigger] docs@[j] == before[j] by {}
                    proof {
                        lemma_first_match_from(orig, filter@, 0);
                    }
                    count = 1;
                    found = true;
                } else {
                    i = i + 1;
                }
            }
            proof {
                let t = docs_view(docs@);
                if found {
                    assert(t =~= update_first(orig, filter@, update@));
                    lemma_update_keeps_id(orig[i as int], update@);
                } else {
                    assert(first_match(orig, filter@) is None);
                    assert(t =~= orig);
                }
                assert forall|j: int| 0 <= j < orig.len() implies doc_id(#[trigger] t[j]) == doc_id(orig[j]) by {
                    if found && j == i {
                        lemma_update_keeps_id(orig[j], update@);
                    }
                }
                lemma_same_ids_keyed(orig, t);
            }
        }
        self.collections[col].docs = docs;
        proof {
            assert(self@.collections =~= old_m.collections.update(col as int, self@.collections[col as int]));
            assert forall|j: int| 0 <= j < self@.collections.len() implies docs_keyed(#[trigger] self@.collections[j].docs) by {
                if j != col {
                    assert(self@.collections[j] == old_m.collections[j]);
                }
            }
        }
        Ok(count)
    }


    /// Removes, from the collection at `col`, every document that the filter
    /// selects (`multi`) or the first one; gives how many were removed.
    pub fn delete(&mut self, col: usize, filter: &Document, multi: bool, session: Option<&ObjectId>) -> (r:
        Result<usize, DbErr>)
        requires
            old(self).wf(),
            col < old(self)@.collections.len(),
        ensures
            final(self).wf(),
            match r {
                Ok(n) => {
                    let c = old(self)@.collections[col as int];
                    &&& session_ok(old(self)@, session_arg(session))
                    &&& filter_valid(filter@)
                    &&& final(self)@ == with_collections(
                        old(self)@,
                        old(self)@.collections.update(
                            col as int,
                            with_docs(
                                c,
                                if multi {
                                    reject(c.docs, filter@)
                                } else {
                                    remove_first(c.docs, filter@)
                                },
                            ),
                        ),
                    )
                    &&& n == (if multi {
                        select(c.docs, filter@).len() as int
                    } else if first_match(c.docs, filter@) is Some {
                        1int
                    } else {
                        0int
                    })
                },
                Err(e) => {
                    &&& final(self)@ == old(self)@
                    &&& !session_ok(old(self)@, session_arg(session)) ==> err_kind(e)
                        == Failure::SessionOutdated
                    &&& session_ok(old(self)@, session_arg(session)) ==> !filter_valid(filter@)
                        && err_kind(e) == Failure::InvalidQuery
                },
            },
    {
        if !self.check_session(session) {
            return Err(DbErr::SessionOutdated);
        }
        match check_filter(filter) {
            Err(e) => return Err(e),
            Ok(()) => {},
        }
        let ghost old_m = self@;
        let ghost c = old_m.collections[col as int];
        let ghost orig = c.docs;
        let mut docs: Vec<Document> = Vec::new();
        std::mem::swap(&mut docs, &mut self.collections[col].docs);
        assert(docs_view(docs@) == orig);
        let n = docs.len();
        let mut count: usize = 0;
        let mut i: usize = 0;
        let kept: Vec<Document>;
        if multi {
            let mut k: Vec<Document> = Vec::new();
            while i < n
                invariant
                    i <= n,
                    n == docs@.len(),
                    docs_view(docs@) == orig,
                    filter_valid(filter@),
                    count <= i,
                    count == select(orig.take(i as int), filter@).len(),
                    docs_view(k@) == reject(orig.take(i as int), filter@),
                decreases n - i,
            {
                proof {
                    assert(orig.take(i + 1).drop_last() =~= orig.take(i as int));
                    assert(orig.take(i + 1).last() == orig[i as int]);
                }
                let m = doc_matches_filter(&docs[i], filter);
                if m {
                    count = count + 1;
                } else {
                    let ghost before = k@;
                    k.push(docs[i].duplicate());
                    assert(docs_view(k@) =~= docs_view(before).push(orig[i as int]));
                }
                i = i + 1;
            }
            proof {
                assert(orig.take(n as int) =~= orig);
                lemma_reject_keyed(orig, filter@);
            }
            kept = k;
        } else {
            proof {
                lemma_first_match_from(orig, filter@, 0);
            }
            let mut found = false;
            while i < n && !found
                invariant
                    i <= n,
                    n == docs@.len(),
                    docs_view(docs@) == orig,
                    filter_valid(filter@),
                    !found ==> count == 0,
                    !found ==> forall|j: int| 0 <= j < i ==> !doc_matches(#[trigger] orig[j], filter@),
                    found ==> i < n && count == 1 && first_match(orig, filter@) == Some(i as int),
                decreases n - i, if found { 0int } else { 1int },
            {
                assert(orig[i as int] == docs@[i as int]@);
                if doc_matches_filter(&docs[i], filter) {
                    proof {
                        lemma_first_match_from(orig, filter@, 0);
                    }
                    count = 1;
                    found = true;
                } else {
                    i = i + 1;
                }
            }
            if found {
                let _ = docs.remove(i);
                proof {
                    assert(docs_view(docs@) =~= orig.remove(i as int));
                    lemma_remove_keyed(orig, i as int);
                }
            } else {
                proof {
                    assert(first_match(orig, filter@) is None);
                }
            }
            kept = docs;
        }
        self.collections[col].docs = kept;
        proof {
            assert(self@.collections =~= old_m.collections.update(col as int, self@.collections[col as int]));
            assert forall|j: int| 0 <= j < self@.collections.len() implies docs_keyed(#[trigger] self@.collections[j].docs) by {
                if j != col {
                    assert(self@.collections[j] == old_m.collections[j]);
                }
            }
        }
        Ok(count)
    }

    /// Removes every document of the collection at `col`; gives how many.
    pub fn delete_all(&mut self, col: usize, session: Option<&ObjectId>) -> (r: Result<usize, DbErr>)
        requires
            old(self).wf(),
            col < old(self)@.collections.len(),
        ensures
            final(self).wf(),
            match r {
                Ok(n) => {
                    let c = old(self)@.collections[col as int];
                    &&& session_ok(old(self)@, session_arg(session))
                    &&& final(self)@ == with_collections(
                        old(self)@,
                        old(self)@.collections.update(col as int, with_docs(c, Seq::empty())),
                    )
                    &&& n == c.docs.len()
                },
                Err(e) => final(self)@ == old(self)@ && !session_ok(old(self)@, session_arg(session))
                    && err_kind(e) == Failure::SessionOutdated,
            },
    {
        if !self.check_session(session) {
            return Err(DbErr::SessionOutdated);
        }
        let ghost old_m = self@;
        let n = self.collections[col].docs.len();
        self.collections[col].docs = Vec::new();
        proof {
            assert(self@.collections[col as int].docs =~= Seq::<DocModel>::empty());
            assert(self@.collections =~= old_m.collections.update(
                col as int,
                with_docs(old_m.collections[col as int], Seq::empty()),
            ));
            assert forall|j: int| 0 <= j < self@.collections.len() implies docs_keyed(#[trigger] self@.collections[j].docs) by {
                if j != col {
                    assert(self@.collections[j] == old_m.collections[j]);
                }
            }
        }
        Ok(n)
    }

    /// Removes the collection at `col` with its documents.
    pub fn drop_collection(&mut self, col: usize, session: Option<&ObjectId>) -> (r: Result<(), DbErr>)
        requires
            old(self).wf(),
            col < old(self)@.collections.len(),
        ensures
            final(self).wf(),
            match r {
                Ok(()) => session_ok(old(self)@, session_arg(session)) && final(self)@ == with_collections(
                    old(self)@,
                    old(self)@.collections.remove(col as int),
                ),
                Err(e) => final(self)@ == old(self)@ && !session_ok(old(self)@, session_arg(session))
                    && err_kind(e) == Failure::SessionOutdated,
            },
    {
        if !self.check_session(session) {
            return Err(DbErr::SessionOutdated);
        }
        let ghost old_m = self@;
        let _ = self.collections.remove(col);
        proof {
            assert(self@.collections =~= old_m.collections.remove(col as int));
            lemma_remove_col_wf(old_m.collections, col as int);
        }
        Ok(())
    }

    /// Records `keys` as an index of the collection at `col`.
    pub fn create_index(
        &mut self,
        col: usize,
        keys: &Document,
        options: Option<&Document>,
        session: Option<&ObjectId>,
    ) -> (r: Result<(), DbErr>)
        requires
            old(self).wf(),
            col < old(self)@.collections.len(),
        ensures
            final(self).wf(),
            match r {
                Ok(()) => {
                    let c = old(self)@.collections[col as int];
                    &&& session_ok(old(self)@, session_arg(session))
                    &&& final(self)@ == with_collections(
                        old(self)@,
                        old(self)@.collections.update(
                            col as int,
                            CollectionModel { indexes: c.indexes.push(keys@), ..c },
                        ),
                    )
                },
                Err(e) => final(self)@ == old(self)@ && !session_ok(old(self)@, session_arg(session))
                    && err_kind(e) == Failure::SessionOutdated,
            },
    {
        if !self.check_session(session) {
            return Err(DbErr::SessionOutdated);
        }
        let ghost old_m = self@;
        self.collections[col].indexes.push(keys.duplicate());
        proof {
            let c = old_m.collections[col as int];
            assert(self@.collections[col as int].indexes =~= c.indexes.push(keys@));
            assert(self@.collections =~= old_m.collections.update(
                col as int,
                CollectionModel { indexes: c.indexes.push(keys@), ..c },
            ));
            assert forall|j: int| 0 <= j < self@.collections.len() implies docs_keyed(#[trigger] self@.collections[j].docs) by {
                if j != col {
                    assert(self@.collections[j] == old_m.collections[j]);
                }
            }
        }
        Ok(())
    }


    /// Opens a transaction, keeping the collections as they are now.
    pub fn start_transaction(&mut self, ty: Option<TransactionType>) -> (r: Result<(), DbErr>)
        requires
            old(self).wf(),
        ensures
            final(self).wf(),
            match r {
                Ok(()) => old(self)@.transaction is None && final(self)@ == (StoreModel {
                    transaction: Some((transaction_type_of(ty), old(self)@.collections)),
                    ..old(self)@
                }),
                Err(e) => old(self)@.transaction is Some && final(self)@ == old(self)@ && err_kind(e)
                    == Failure::StartTransactionInAnotherTransaction,
            },
    {
        if self.transaction.is_some() {
            return Err(DbErr::StartTransactionInAnotherTransaction);
        }
        let t = match ty {
            Some(t) => t,
            None => TransactionType::Write,
        };
        let snapshot = copy_collections(&self.collections);
        self.transaction = Some((t, snapshot));
        Ok(())
    }

    /// Closes the open transaction, keeping its changes.
    pub fn commit(&mut self) -> (r: Result<(), DbErr>)
        requires
            old(self).wf(),
        ensures
            final(self).wf(),
            match r {
                Ok(()) => old(self)@.transaction is Some && final(self)@ == (StoreModel {
                    transaction: None,
                    ..old(self)@
                }),
                Err(e) => old(self)@.transaction is None && final(self)@ == old(self)@ && err_kind(e)
                    == Failure::NoTransactionStarted,
            },
    {
        if self.transaction.is_none() {
            return Err(DbErr::NoTransactionStarted);
        }
        self.transaction = None;
        Ok(())
    }

    /// Closes the open transaction, bringing the collections back to what
    /// they were when it was opened.
    pub fn rollback(&mut self) -> (r: Result<(), DbErr>)
        requires
            old(self).wf(),
        ensures
            final(self).wf(),
            match r {
                Ok(()) => old(self)@.transaction matches Some(t) && final(self)@ == (StoreModel {
                    collections: t.1,
                    transaction: None,
                    ..old(self)@
                }),
                Err(e) => old(self)@.transaction is None && final(self)@ == old(self)@ && err_kind(e)
                    == Failure::NoTransactionStarted,
            },
    {
        let mut t: Option<(TransactionType, Vec<CollectionData>)> = None;
        std::mem::swap(&mut t, &mut self.transaction);
        match t {
            None => Err(DbErr::NoTransactionStarted),
            Some((_, snapshot)) => {
                self.collections = snapshot;
                Ok(())
            },
        }
    }

    /// Opens a session with a fresh identifier.
    pub fn start_session(&mut self) -> (r: ObjectId)
        requires
            old(self).wf(),
        ensures
            final(self).wf(),
            final(self)@ == (StoreModel { sessions: old(self)@.sessions.push(r.bytes@), ..old(self)@ }),
    {
        let id = new_object_id();
        self.sessions.push(id);
        assert(self@.sessions =~= old(self)@.sessions.push(id.bytes@));
        id
    }

    /// Closes every session with this identifier.
    pub fn drop_session(&mut self, id: &ObjectId) -> (r: Result<(), DbErr>)
        requires
            old(self).wf(),
        ensures
            final(self).wf(),
            r is Ok,
            final(self)@ == (StoreModel {
                sessions: without_session(old(self)@.sessions, id.bytes@),
                ..old(self)@
            }),
    {
        let ghost ss = self@.sessions;
        let mut kept: Vec<ObjectId> = Vec::new();
        let mut i: usize = 0;
        while i < self.sessions.len()
            invariant
                i <= self.sessions.len(),
                ss == ids_view(self.sessions@),
                ids_view(kept@) == without_session(ss.take(i as int), id.bytes@),
            decreases self.sessions.len() - i,
        {
            proof {
                assert(ss.take(i + 1).drop_last() =~= ss.take(i as int));
                assert(ss.take(i + 1).last() == self.sessions@[i as int].bytes@);
            }
            if !self.sessions[i].same_as(id) {
                let ghost before = kept@;
                kept.push(self.sessions[i]);
                assert(ids_view(kept@) =~= ids_view(before).push(self.sessions@[i as int].bytes@));
            }
            i = i + 1;
        }
        assert(ss.take(ss.len() as int) =~= ss);
        self.sessions = kept;
        Ok(())
    }

    /// A copy of the collections.
    pub fn dump(&self) -> (r: FullDump)
        ensures
            cols_view(r.collections@) == self@.collections,
    {
        FullDump { collections: copy_collections(&self.collections) }
    }

}

} // verus!
