//! The database: its operations by collection name, and the answering of requests.
use vstd::prelude::*;
use crate::commands::{
    session_of, options_session, CommandMessage, CountDocumentsCommand, CreateCollectionCommand,
    DeleteCommand, DropCollectionCommand, FindCommand, InsertCommand, StartTransactionCommand,
    UpdateCommand,
};
use crate::error::DbErr;
use crate::model::{
    store_wf,
    auto_create, collection_names, empty_collection, err_kind, find_col, lemma_auto_create,
    lemma_find_col, reject, remove_first, select, session_ok, update_first, update_selected,
    first_match, with_collections, with_docs, CollectionModel, Failure, StoreModel, TransactionType,
};
use crate::query::filter_valid;
use crate::results::{DeleteResult, InsertManyResult, InsertOneResult, UpdateResult};
use crate::store::{
    insert_many_outcome, insert_many_result, insert_one_outcome, insert_one_result, meta_doc,
    metas_of, session_arg, CollectionMeta, Config, DbContext, FullDump,
};
use crate::update::{update_accepted, update_ops_valid};
use crate::value::{doc_get, key_index_from, DocModel, Document, ObjectId, Value, ValueModel};

verus! {

/// The name that a collection's description holds, where it holds one.
pub open spec fn meta_name(d: DocModel) -> Option<Seq<char>> {
    match doc_get(d, "name"@) {
        Some(ValueModel::String(s)) => Some(s),
        _ => None,
    }
}

pub proof fn lemma_meta_name(name: Seq<char>)
    ensures
        meta_name(meta_doc(name)) == Some(name),
{
    let d = meta_doc(name);
    assert(key_index_from(Seq::<(Seq<char>, ValueModel)>::empty(), "name"@, 0) is None);
    assert(d == seq![("name"@, ValueModel::String(name))]);
    assert(key_index_from(d, "name"@, 0) == Some(0int));
}

/// The documents of the collection named `name`; none where it is missing.
pub open spec fn docs_of(m: StoreModel, name: Seq<char>) -> Seq<DocModel> {
    match find_col(m.collections, name) {
        Some(i) => m.collections[i].docs,
        None => Seq::empty(),
    }
}

/// The filter that an optional filter stands for: none selects all.
pub open spec fn filter_opt(f: Option<Document>) -> DocModel {
    match f {
        Some(d) => d@,
        None => Seq::empty(),
    }
}

/// What counting the documents of `name` gives.
pub open spec fn count_outcome(m: StoreModel, name: Seq<char>, s: Option<Seq<u8>>, r: Result<u64, DbErr>) -> bool {
    match r {
        Ok(n) => session_ok(m, s) && n == docs_of(m, name).len(),
        Err(e) => !session_ok(m, s) && err_kind(e) == Failure::SessionOutdated,
    }
}

/// What finding in `name` gives: the selected documents, in order; none where
/// the collection is missing, whatever the filter.
pub open spec fn find_result(m: StoreModel, name: Seq<char>, f: DocModel, s: Option<Seq<u8>>) -> Result<
    Seq<DocModel>,
    Failure,
> {
    if !session_ok(m, s) {
        Err(Failure::SessionOutdated)
    } else if find_col(m.collections, name) is None {
        Ok(Seq::empty())
    } else if !filter_valid(f) {
        Err(Failure::InvalidQuery)
    } else {
        Ok(select(docs_of(m, name), f))
    }
}

pub open spec fn docs_result(r: Result<Vec<Document>, DbErr>) -> Result<Seq<DocModel>, Failure> {
    match r {
        Ok(v) => Ok(crate::store::docs_view(v@)),
        Err(e) => Err(err_kind(e)),
    }
}

pub open spec fn first_result(r: Result<Option<Document>, DbErr>) -> Result<Seq<DocModel>, Failure> {
    match r {
        Ok(Some(d)) => Ok(seq![d@]),
        Ok(None) => Ok(Seq::empty()),
        Err(e) => Err(err_kind(e)),
    }
}

/// The first of the documents, if any.
pub open spec fn first_of(r: Result<Seq<DocModel>, Failure>) -> Result<Seq<DocModel>, Failure> {
    match r {
        Ok(s) => if s.len() == 0 {
            Ok(s)
        } else {
            Ok(seq![s[0]])
        },
        Err(f) => Err(f),
    }
}

/// What updating in `name` does: nothing where the collection is missing.
pub open spec fn update_outcome(
    old: StoreModel,
    new: StoreModel,
    name: Seq<char>,
    f: DocModel,
    u: DocModel,
    multi: bool,
    s: Option<Seq<u8>>,
    r: Result<UpdateResult, DbErr>,
) -> bool {
    if !session_ok(old, s) {
        new == old && (r matches Err(e) && err_kind(e) == Failure::SessionOutdated)
    } else {
        match find_col(old.collections, name) {
            None => new == old && (r matches Ok(res) && res.modified_count == 0),
            Some(i) => if !filter_valid(f) {
                new == old && (r matches Err(e) && err_kind(e) == Failure::InvalidQuery)
            } else if !update_ops_valid(u) {
                new == old && (r matches Err(e) && err_kind(e) == Failure::InvalidUpdate)
            } else if !update_accepted(u) {
                new == old && (r matches Err(e) && err_kind(e) == Failure::UnableToUpdatePrimaryKey)
            } else {
                let c = old.collections[i];
                &&& new == with_collections(
                    old,
                    old.collections.update(
                        i,
                        with_docs(
                            c,
                            if multi {
                                update_selected(c.docs, f, u)
                            } else {
                                update_first(c.docs, f, u)
                            },
                        ),
                    ),
                )
                &&& r matches Ok(res)
                &&& res.modified_count == (if multi {
                    select(c.docs, f).len() as int
                } else if first_match(c.docs, f) is Some {
                    1int
                } else {
                    0int
                })
            },
        }
    }
}

/// What deleting from `name` does: nothing where the collection is missing;
/// an empty filter of `delete_many` removes everything.
pub open spec fn delete_outcome(
    old: StoreModel,
    new: StoreModel,
    name: Seq<char>,
    f: DocModel,
    multi: bool,
    s: Option<Seq<u8>>,
    r: Result<DeleteResult, DbErr>,
) -> bool {
    if !session_ok(old, s) {
        new == old && (r matches Err(e) && err_kind(e) == Failure::SessionOutdated)
    } else {
        match find_col(old.collections, name) {
            None => new == old && (r matches Ok(res) && res.deleted_count == 0),
            Some(i) => {
                let c = old.collections[i];
                if multi && f.len() == 0 {
                    &&& new == with_collections(
                        old,
                        old.collections.update(i, with_docs(c, Seq::empty())),
                    )
                    &&& r matches Ok(res)
                    &&& res.deleted_count == c.docs.len()
                } else if !filter_valid(f) {
                    new == old && (r matches Err(e) && err_kind(e) == Failure::InvalidQuery)
                } else {
                    &&& new == with_collections(
                        old,
                        old.collections.update(
                            i,
                            with_docs(
                                c,
                                if multi {
                                    reject(c.docs, f)
                                } else {
                                    remove_first(c.docs, f)
                                },
                            ),
                        ),
                    )
                    &&& r matches Ok(res)
                    &&& res.deleted_count == (if multi {
                        select(c.docs, f).len() as int
                    } else if first_match(c.docs, f) is Some {
                        1int
                    } else {
                        0int
                    })
                }
            },
        }
    }
}

/// What dropping `name` does: nothing where the collection is missing.
pub open spec fn drop_outcome(
    old: StoreModel,
    new: StoreModel,
    name: Seq<char>,
    s: Option<Seq<u8>>,
    r: Result<(), DbErr>,
) -> bool {
    if !session_ok(old, s) {
        new == old && (r matches Err(e) && err_kind(e) == Failure::SessionOutdated)
    } else {
        r is Ok && match find_col(old.collections, name) {
            None => new == old,
            Some(i) => new == with_collections(old, old.collections.remove(i)),
        }
    }
}

/// What creating the collection `name` does.
pub open spec fn create_outcome(
    old: StoreModel,
    new: StoreModel,
    name: Seq<char>,
    s: Option<Seq<u8>>,
    r: Result<(), DbErr>,
) -> bool {
    if !session_ok(old, s) {
        new == old && (r matches Err(e) && err_kind(e) == Failure::SessionOutdated)
    } else if find_col(old.collections, name) is Some {
        new == old && (r matches Err(e) && (e matches DbErr::CollectionAlreadyExits(n) && n@ == name))
    } else {
        r is Ok && new == with_collections(old, old.collections.push(empty_collection(name)))
    }
}

/// What creating an index on `name` does: the collection is created where
/// it is missing, and `keys` is added to its indexes.
pub open spec fn create_index_outcome(
    old: StoreModel,
    new: StoreModel,
    name: Seq<char>,
    keys: DocModel,
    s: Option<Seq<u8>>,
    r: Result<(), DbErr>,
) -> bool {
    if !session_ok(old, s) {
        new == old && (r matches Err(e) && err_kind(e) == Failure::SessionOutdated)
    } else {
        let cs = auto_create(old.collections, name);
        let i = find_col(cs, name)->0;
        &&& r is Ok
        &&& new == with_collections(
            old,
            cs.update(i, CollectionModel { indexes: cs[i].indexes.push(keys), ..cs[i] }),
        )
    }
}

/// What a find request gives: the documents it selects (all, or the first).
pub open spec fn find_reply_outcome(old: StoreModel, new: StoreModel, c: FindCommand, r: Result<Reply, DbErr>) -> bool {
    let expected = find_result(old, c.ns@, filter_opt(c.filter), options_session(c.options));
    &&& new == old
    &&& match r {
        Ok(Reply::Documents(v)) => Ok::<Seq<DocModel>, Failure>(crate::store::docs_view(v@)) == (if c.multi {
            expected
        } else {
            first_of(expected)
        }),
        Ok(_) => false,
        Err(e) => Err::<Seq<DocModel>, Failure>(err_kind(e)) == expected,
    }
}

pub open spec fn inserted_result(r: Result<Reply, DbErr>) -> Result<Seq<ValueModel>, Failure> {
    match r {
        Ok(Reply::Inserted(res)) => Ok(crate::value::values_view(res.inserted_ids@)),
        Ok(_) => Err(Failure::InvalidQuery),
        Err(e) => Err(err_kind(e)),
    }
}

/// What an insert request does.
pub open spec fn insert_reply_outcome(old: StoreModel, new: StoreModel, c: InsertCommand, r: Result<Reply, DbErr>) -> bool {
    &&& (r is Ok ==> r matches Ok(Reply::Inserted(_)))
    &&& exists|fresh: Seq<Seq<u8>>|
        fresh.len() == c.documents@.len() && insert_many_outcome(
            old,
            new,
            c.ns@,
            crate::store::docs_view(c.documents@),
            fresh,
            options_session(c.options),
            #[trigger] inserted_result(r),
        )
}

/// What an update request does.
pub open spec fn update_reply_outcome(old: StoreModel, new: StoreModel, c: UpdateCommand, r: Result<Reply, DbErr>) -> bool {
    match r {
        Ok(Reply::Updated(u)) => update_outcome(old, new, c.ns@, c.filter@, c.update@, c.multi, options_session(c.options), Ok(u)),
        Ok(_) => false,
        Err(e) => update_outcome(old, new, c.ns@, c.filter@, c.update@, c.multi, options_session(c.options), Err(e)),
    }
}

/// What a delete request does.
pub open spec fn delete_reply_outcome(old: StoreModel, new: StoreModel, c: DeleteCommand, r: Result<Reply, DbErr>) -> bool {
    match r {
        Ok(Reply::Deleted(d)) => delete_outcome(old, new, c.ns@, c.filter@, c.multi, options_session(c.options), Ok(d)),
        Ok(_) => false,
        Err(e) => delete_outcome(old, new, c.ns@, c.filter@, c.multi, options_session(c.options), Err(e)),
    }
}

/// What a create request does: `true` where it created the collection,
/// `false` where one of that name exists.
pub open spec fn create_reply_outcome(old: StoreModel, new: StoreModel, c: CreateCollectionCommand, r: Result<Reply, DbErr>) -> bool {
    let s = options_session(c.options);
    if !session_ok(old, s) {
        new == old && (r matches Err(e) && err_kind(e) == Failure::SessionOutdated)
    } else if find_col(old.collections, c.ns@) is Some {
        new == old && (r matches Ok(Reply::Created(b)) && !b)
    } else {
        new == with_collections(old, old.collections.push(empty_collection(c.ns@))) && (r matches Ok(
            Reply::Created(b),
        ) && b)
    }
}

/// What a drop request does: nothing where the collection is missing.
pub open spec fn drop_reply_outcome(old: StoreModel, new: StoreModel, c: DropCollectionCommand, r: Result<Reply, DbErr>) -> bool {
    match r {
        Ok(Reply::Null) => drop_outcome(old, new, c.ns@, options_session(c.options), Ok(())),
        Ok(_) => false,
        Err(e) => drop_outcome(old, new, c.ns@, options_session(c.options), Err(e)),
    }
}

/// What a count request gives.
pub open spec fn count_reply_outcome(old: StoreModel, new: StoreModel, c: CountDocumentsCommand, r: Result<Reply, DbErr>) -> bool {
    let s = options_session(c.options);
    &&& new == old
    &&& match r {
        Ok(Reply::Count(n)) => session_ok(old, s) && n == docs_of(old, c.ns@).len() as i64,
        Ok(_) => false,
        Err(e) => !session_ok(old, s) && err_kind(e) == Failure::SessionOutdated,
    }
}

/// What opening a transaction does.
pub open spec fn start_transaction_outcome(old: StoreModel, new: StoreModel, ty: Option<TransactionType>, r: Result<Reply, DbErr>) -> bool {
    match r {
        Ok(Reply::Null) => old.transaction is None && new == (StoreModel {
            transaction: Some((crate::store::transaction_type_of(ty), old.collections)),
            ..old
        }),
        Ok(_) => false,
        Err(e) => old.transaction is Some && new == old && err_kind(e) == Failure::StartTransactionInAnotherTransaction,
    }
}

/// What committing does.
pub open spec fn commit_outcome(old: StoreModel, new: StoreModel, r: Result<Reply, DbErr>) -> bool {
    match r {
        Ok(Reply::Null) => old.transaction is Some && new == (StoreModel { transaction: None, ..old }),
        Ok(_) => false,
        Err(e) => old.transaction is None && new == old && err_kind(e) == Failure::NoTransactionStarted,
    }
}

/// What rolling back does.
pub open spec fn rollback_outcome(old: StoreModel, new: StoreModel, r: Result<Reply, DbErr>) -> bool {
    match r {
        Ok(Reply::Null) => old.transaction matches Some(t) && new == (StoreModel {
            collections: t.1,
            transaction: None,
            ..old
        }),
        Ok(_) => false,
        Err(e) => old.transaction is None && new == old && err_kind(e) == Failure::NoTransactionStarted,
    }
}

/// What a request does and answers.
pub open spec fn request_outcome(old: StoreModel, new: StoreModel, cmd: CommandMessage, r: Result<Reply, DbErr>) -> bool {
    match cmd {
        CommandMessage::Find(c) => find_reply_outcome(old, new, c, r),
        CommandMessage::Insert(c) => insert_reply_outcome(old, new, c, r),
        CommandMessage::Update(c) => update_reply_outcome(old, new, c, r),
        CommandMessage::Delete(c) => delete_reply_outcome(old, new, c, r),
        CommandMessage::CreateCollection(c) => create_reply_outcome(old, new, c, r),
        CommandMessage::DropCollection(c) => drop_reply_outcome(old, new, c, r),
        CommandMessage::StartTransaction(c) => start_transaction_outcome(old, new, c.ty, r),
        CommandMessage::Commit => commit_outcome(old, new, r),
        CommandMessage::Rollback => rollback_outcome(old, new, r),
        CommandMessage::SafelyQuit => new == old && r matches Ok(Reply::Null),
        CommandMessage::CountDocuments(c) => count_reply_outcome(old, new, c, r),
    }
}

/// The answer to a request.
#[derive(Debug)]
pub enum Reply {
    Null,
    Documents(Vec<Document>),
    Inserted(InsertManyResult),
    Updated(UpdateResult),
    Deleted(DeleteResult),
    Created(bool),
    Count(i64),
}

/// The answer to a request, and whether it asked the server to stop.
#[derive(Debug)]
pub struct HandleRequestResult {
    pub is_quit: bool,
    pub value: Reply,
}

/// A session of a client.
#[derive(Debug)]
pub struct ClientSession {
    pub id: ObjectId,
}

/// A database. It is opened empty, in memory; every operation keeps its
/// invariant (`wf`).
pub struct Database {
    inner: DatabaseInner,
}

impl View for Database {
    type V = StoreModel;

    closed spec fn view(&self) -> StoreModel {
        self.inner@
    }
}

impl Database {
    pub closed spec fn wf(&self) -> bool {
        self.inner.wf()
    }

    /// What the invariant of a database says of its model.
    pub proof fn lemma_wf(&self)
        requires
            self.wf(),
        ensures
            store_wf(self@),
    {
        self.inner.lemma_wf();
    }

    /// An empty database held in memory, with the default settings.
    pub fn open_memory() -> (r: Result<Database, DbErr>)
        ensures
            r matches Ok(db) && db.wf() && db@ == (StoreModel {
                collections: Seq::empty(),
                transaction: None,
                sessions: Seq::empty(),
            }),
    {
        Database::open_memory_with_config(Config::default())
    }

    /// An empty database held in memory.
    pub fn open_memory_with_config(config: Config) -> (r: Result<Database, DbErr>)
        ensures
            r matches Ok(db) && db.wf() && db@ == (StoreModel {
                collections: Seq::empty(),
                transaction: None,
                sessions: Seq::empty(),
            }),
    {
        let inner = match DatabaseInner::open_memory_with_config(config) {
            Ok(inner) => inner,
            Err(e) => return Err(e),
        };
        Ok(Database { inner })
    }

    /// Creates a new collection in the database with the given `name`.
    pub fn create_collection(&mut self, name: &str) -> (r: Result<(), DbErr>)
        requires
            old(self).wf(),
        ensures
            final(self).wf(),
            create_outcome(old(self)@, final(self)@, name@, None, r),
    {
        self.inner.create_collection(name, None)
    }

    /// Creates a new collection with the given `name` under the session.
    pub fn create_collection_with_session(&mut self, name: &str, session: &mut ClientSession) -> (r: Result<
        (),
        DbErr,
    >)
        requires
            old(self).wf(),
        ensures
            final(self).wf(),
            final(session).id == old(session).id,
            create_outcome(old(self)@, final(self)@, name@, Some(old(session).id.bytes@), r),
    {
        self.inner.create_collection(name, Some(&session.id))
    }

    /// Opens a session.
    pub fn start_session(&mut self) -> (r: Result<ClientSession, DbErr>)
        requires
            old(self).wf(),
        ensures
            final(self).wf(),
            r matches Ok(session) && final(self)@ == (StoreModel {
                sessions: old(self)@.sessions.push(session.id.bytes@),
                ..old(self)@
            }),
    {
        let session_id = self.inner.ctx.start_session();
        Ok(ClientSession { id: session_id })
    }

    /// Opens a transaction.
    pub fn start_transaction(&mut self, _session_id: &ObjectId, ty: Option<TransactionType>) -> (r: Result<
        (),
        DbErr,
    >)
        requires
            old(self).wf(),
        ensures
            final(self).wf(),
            match r {
                Ok(()) => old(self)@.transaction is None && final(self)@ == (StoreModel {
                    transaction: Some((crate::store::transaction_type_of(ty), old(self)@.collections)),
                    ..old(self)@
                }),
                Err(e) => old(self)@.transaction is Some && final(self)@ == old(self)@ && err_kind(e)
                    == Failure::StartTransactionInAnotherTransaction,
            },
    {
        self.inner.start_transaction(ty)
    }

    /// Closes the open transaction, keeping its changes.
    pub fn commit(&mut self, _session: &ObjectId) -> (r: Result<(), DbErr>)
        requires
            old(self).wf(),
        ensures
            final(self).wf(),
            match r {
                Ok(()) => old(self)@.transaction is Some && final(self)@ == (StoreModel {
                    transaction: None,
                    ..old(self)@
                }),
                Err(e) => old(self)@.transaction is None && final(self)@ == old(self)@ && err_kind(e)
                    == Failure::NoTransactionStarted,
            },
    {
        self.inner.commit()
    }

    /// Closes the open transaction, undoing its changes.
    pub fn rollback(&mut self, _session: &ObjectId) -> (r: Result<(), DbErr>)
        requires
            old(self).wf(),
        ensures
            final(self).wf(),
            match r {
                Ok(()) => old(self)@.transaction matches Some(t) && final(self)@ == (StoreModel {
                    collections: t.1,
                    transaction: None,
                    ..old(self)@
                }),
                Err(e) => old(self)@.transaction is None && final(self)@ == old(self)@ && err_kind(e)
                    == Failure::NoTransactionStarted,
            },
    {
        self.inner.rollback()
    }

    /// Closes the session.
    pub fn drop_session(&mut self, session_id: &ObjectId) -> (r: Result<(), DbErr>)
        requires
            old(self).wf(),
        ensures
            final(self).wf(),
            r is Ok,
            final(self)@ == (StoreModel {
                sessions: crate::store::without_session(old(self)@.sessions, session_id.bytes@),
                ..old(self)@
            }),
    {
        self.inner.drop_session(session_id)
    }

    /// A copy of all collections.
    pub fn dump(&mut self) -> (r: Result<FullDump, DbErr>)
        ensures
            final(self)@ == old(self)@,
            final(self).wf() == old(self).wf(),
            r matches Ok(d) && crate::store::cols_view(d.collections@) == old(self)@.collections,
    {
        self.inner.dump()
    }

    /// Gets the names of the collections in the database.
    pub fn list_collection_names(&mut self) -> (r: Result<Vec<String>, DbErr>)
        ensures
            final(self)@ == old(self)@,
            final(self).wf() == old(self).wf(),
            r matches Ok(names) && names@.len() == old(self)@.collections.len() && forall|i: int|
                0 <= i < names@.len() ==> (#[trigger] names@[i])@ == collection_names(
                    old(self)@.collections,
                )[i],
            old(self).wf() ==> (r matches Ok(names) && forall|i: int, j: int|
                0 <= i < j < names@.len() ==> (#[trigger] names@[i])@ != (#[trigger] names@[j])@),
    {
        proof {
            if old(self).wf() {
                old(self).inner.lemma_wf();
            }
        }
        self.inner.list_collection_names()
    }

    /// Answers a request.
    pub fn handle_request_doc(&mut self, value: CommandMessage) -> (r: Result<HandleRequestResult, DbErr>)
        requires
            old(self).wf(),
        ensures
            final(self).wf(),
            match r {
                Ok(res) => res.is_quit == (value is SafelyQuit) && request_outcome(
                    old(self)@,
                    final(self)@,
                    value,
                    Ok(res.value),
                ),
                Err(e) => request_outcome(old(self)@, final(self)@, value, Err(e)),
            },
    {
        self.inner.handle_request_doc(value)
    }

    /// The number of documents in `col_name`; zero where it is missing.
    pub fn count_documents(&mut self, col_name: &str, session_id: Option<&ObjectId>) -> (r: Result<
        u64,
        DbErr,
    >)
        requires
            old(self).wf(),
        ensures
            final(self).wf(),
            final(self)@ == old(self)@,
            count_outcome(old(self)@, col_name@, session_arg(session_id), r),
    {
        self.inner.count_documents(col_name, session_id)
    }

    /// The first document of `col_name` that the filter selects.
    pub fn find_one(&mut self, col_name: &str, filter: Option<Document>, session_id: Option<&ObjectId>) -> (r:
        Result<Option<Document>, DbErr>)
        requires
            old(self).wf(),
        ensures
            final(self).wf(),
            final(self)@ == old(self)@,
            first_result(r) == first_of(find_result(old(self)@, col_name@, filter_opt(filter), session_arg(session_id))),
    {
        self.inner.find_one(col_name, filter, session_id)
    }

    /// The documents of `col_name` that the filter selects, in order.
    pub fn find_many(&mut self, col_name: &str, filter: Option<Document>, session_id: Option<&ObjectId>) -> (r:
        Result<Vec<Document>, DbErr>)
        requires
            old(self).wf(),
        ensures
            final(self).wf(),
            final(self)@ == old(self)@,
            docs_result(r) == find_result(old(self)@, col_name@, filter_opt(filter), session_arg(session_id)),
    {
        self.inner.find_many(col_name, filter, session_id)
    }

    /// Inserts `doc` into `col_name`, creating the collection where it is
    /// missing; a document without `_id` gets a fresh one in front.
    pub fn insert_one(&mut self, col_name: &str, doc: Document, session_id: Option<&ObjectId>) -> (r:
        Result<InsertOneResult, DbErr>)
        requires
            old(self).wf(),
        ensures
            final(self).wf(),
            exists|fresh: Seq<u8>|
                insert_one_outcome(
                    old(self)@,
                    final(self)@,
                    col_name@,
                    doc@,
                    fresh,
                    session_arg(session_id),
                    #[trigger] insert_one_result(r),
                ),
    {
        let ghost d = doc@;
        let r = self.inner.insert_one(col_name, doc, session_id);
        proof {
            let fresh = choose|fresh: Seq<u8>|
                insert_one_outcome(
                    old(self).inner@,
                    self.inner@,
                    col_name@,
                    d,
                    fresh,
                    session_arg(session_id),
                    #[trigger] insert_one_result(r),
                );
            assert(insert_one_outcome(old(self)@, self@, col_name@, d, fresh, session_arg(session_id), insert_one_result(r)));
        }
        r
    }

    /// Inserts the documents in order into `col_name`, all or nothing.
    pub fn insert_many(&mut self, col_name: &str, docs: Vec<Document>, session_id: Option<&ObjectId>) -> (r:
        Result<InsertManyResult, DbErr>)
        requires
            old(self).wf(),
        ensures
            final(self).wf(),
            exists|fresh: Seq<Seq<u8>>|
                fresh.len() == docs@.len() && insert_many_outcome(
                    old(self)@,
                    final(self)@,
                    col_name@,
                    crate::store::docs_view(docs@),
                    fresh,
                    session_arg(session_id),
                    #[trigger] insert_many_result(r),
                ),
    {
        let ghost ds = crate::store::docs_view(docs@);
        let ghost n = docs@.len();
        let r = self.inner.insert_many(col_name, docs, session_id);
        proof {
            let fresh = choose|fresh: Seq<Seq<u8>>|
                fresh.len() == n && insert_many_outcome(
                    old(self).inner@,
                    self.inner@,
                    col_name@,
                    ds,
                    fresh,
                    session_arg(session_id),
                    #[trigger] insert_many_result(r),
                );
            assert(insert_many_outcome(old(self)@, self@, col_name@, ds, fresh, session_arg(session_id), insert_many_result(r)));
        }
        r
    }

    /// Updates the first document of `col_name` that `query` selects.
    pub fn update_one(&mut self, col_name: &str, query: Document, update: Document, session_id: Option<&ObjectId>) -> (r:
        Result<UpdateResult, DbErr>)
        requires
            old(self).wf(),
        ensures
            final(self).wf(),
            update_outcome(old(self)@, final(self)@, col_name@, query@, update@, false, session_arg(session_id), r),
    {
        self.inner.update_one(col_name, query, update, session_id)
    }

    /// Updates every document of `col_name` that `query` selects.
    pub fn update_many(&mut self, col_name: &str, query: Document, update: Document, session_id: Option<&ObjectId>) -> (r:
        Result<UpdateResult, DbErr>)
        requires
            old(self).wf(),
        ensures
            final(self).wf(),
            update_outcome(old(self)@, final(self)@, col_name@, query@, update@, true, session_arg(session_id), r),
    {
        self.inner.update_many(col_name, query, update, session_id)
    }

    /// Removes the first document of `col_name` that `query` selects.
    pub fn delete_one(&mut self, col_name: &str, query: Document, session_id: Option<&ObjectId>) -> (r: Result<
        DeleteResult,
        DbErr,
    >)
        requires
            old(self).wf(),
        ensures
            final(self).wf(),
            delete_outcome(old(self)@, final(self)@, col_name@, query@, false, session_arg(session_id), r),
    {
        self.inner.delete_one(col_name, query, session_id)
    }

    /// Removes every document of `col_name` that `query` selects.
    pub fn delete_many(&mut self, col_name: &str, query: Document, session_id: Option<&ObjectId>) -> (r: Result<
        DeleteResult,
        DbErr,
    >)
        requires
            old(self).wf(),
        ensures
            final(self).wf(),
            delete_outcome(old(self)@, final(self)@, col_name@, query@, true, session_arg(session_id), r),
    {
        self.inner.delete_many(col_name, query, session_id)
    }

    /// Adds `keys` to the indexes of `col_name`.
    pub fn create_index(
        &mut self,
        col_name: &str,
        keys: &Document,
        options: Option<&Document>,
        session_id: Option<&ObjectId>,
    ) -> (r: Result<(), DbErr>)
        requires
            old(self).wf(),
        ensures
            final(self).wf(),
            create_index_outcome(old(self)@, final(self)@, col_name@, keys@, session_arg(session_id), r),
    {
        self.inner.create_index(col_name, keys, options, session_id)
    }

    /// Removes the collection `col_name`; nothing happens where it is missing.
    pub fn drop(&mut self, col_name: &str, session_id: Option<&ObjectId>) -> (r: Result<(), DbErr>)
        requires
            old(self).wf(),
        ensures
            final(self).wf(),
            drop_outcome(old(self)@, final(self)@, col_name@, session_arg(session_id), r),
    {
        self.inner.drop_collection(col_name, session_id)
    }
}

/// The database with its state.
pub struct DatabaseInner {
    pub(crate) ctx: DbContext,
}

impl View for DatabaseInner {
    type V = StoreModel;

    closed spec fn view(&self) -> StoreModel {
        self.ctx@
    }
}

impl DatabaseInner {
    pub closed spec fn wf(&self) -> bool {
        self.ctx.wf()
    }

    /// What the invariant of a database says of its model.
    pub proof fn lemma_wf(&self)
        requires
            self.wf(),
        ensures
            store_wf(self@),
    {
    }

    /// An empty database held in memory.
    pub fn open_memory_with_config(config: Config) -> (r: Result<DatabaseInner, DbErr>)
        ensures
            r matches Ok(db) && db.wf() && db@ == (StoreModel {
                collections: Seq::empty(),
                transaction: None,
                sessions: Seq::empty(),
            }),
    {
        let ctx = DbContext::new(config);
        Ok(DatabaseInner { ctx })
    }

    pub fn create_collection(&mut self, name: &str, session_id: Option<&ObjectId>) -> (r: Result<
        (),
        DbErr,
    >)
        requires
            old(self).wf(),
        ensures
            final(self).wf(),
            create_outcome(old(self)@, final(self)@, name@, session_arg(session_id), r),
    {
        match self.ctx.create_collection(name, session_id) {
            Ok(_) => Ok(()),
            Err(e) => Err(e),
        }
    }

    pub fn get_collection_meta_by_name(
        &mut self,
        col_name: &str,
        create_if_not_exist: bool,
        session_id: Option<&ObjectId>,
    ) -> (r: Result<Option<CollectionMeta>, DbErr>)
        requires
            old(self).wf(),
        ensures
            final(self).wf(),
            match r {
                Ok(found) => {
                    &&& session_ok(old(self)@, session_arg(session_id))
                    &&& final(self)@ == (if create_if_not_exist {
                        with_collections(old(self)@, auto_create(old(self)@.collections, col_name@))
                    } else {
                        old(self)@
                    })
                    &&& match found {
                        Some(meta) => find_col(final(self)@.collections, col_name@) == Some(
                            meta.id as int,
                        ) && meta.name@ == col_name@,
                        None => find_col(final(self)@.collections, col_name@) is None,
                    }
                },
                Err(e) => {
                    &&& !session_ok(old(self)@, session_arg(session_id))
                    &&& err_kind(e) == Failure::SessionOutdated
                    &&& final(self)@ == old(self)@
                },
            },
    {
        self.ctx.get_collection_meta_by_name_advanced_auto(col_name, create_if_not_exist, session_id)
    }

    pub fn dump(&mut self) -> (r: Result<FullDump, DbErr>)
        ensures
            final(self)@ == old(self)@,
            final(self).wf() == old(self).wf(),
            r matches Ok(d) && crate::store::cols_view(d.collections@) == old(self)@.collections,
    {
        Ok(self.ctx.dump())
    }

    pub fn start_transaction(&mut self, ty: Option<TransactionType>) -> (r: Result<(), DbErr>)
        requires
            old(self).wf(),
        ensures
            final(self).wf(),
            match r {
                Ok(()) => old(self)@.transaction is None && final(self)@ == (StoreModel {
                    transaction: Some((crate::store::transaction_type_of(ty), old(self)@.collections)),
                    ..old(self)@
                }),
                Err(e) => old(self)@.transaction is Some && final(self)@ == old(self)@ && err_kind(e)
                    == Failure::StartTransactionInAnotherTransaction,
            },
    {
        self.ctx.start_transaction(ty)
    }

    pub fn commit(&mut self) -> (r: Result<(), DbErr>)
        requires
            old(self).wf(),
        ensures
            final(self).wf(),
            match r {
                Ok(()) => old(self)@.transaction is Some && final(self)@ == (StoreModel {
                    transaction: None,
                    ..old(self)@
                }),
                Err(e) => old(self)@.transaction is None && final(self)@ == old(self)@ && err_kind(e)
                    == Failure::NoTransactionStarted,
            },
    {
        self.ctx.commit()
    }

    pub fn rollback(&mut self) -> (r: Result<(), DbErr>)
        requires
            old(self).wf(),
        ensures
            final(self).wf(),
            match r {
                Ok(()) => old(self)@.transaction matches Some(t) && final(self)@ == (StoreModel {
                    collections: t.1,
                    transaction: None,
                    ..old(self)@
                }),
                Err(e) => old(self)@.transaction is None && final(self)@ == old(self)@ && err_kind(e)
                    == Failure::NoTransactionStarted,
            },
    {
        self.ctx.rollback()
    }

    pub fn drop_session(&mut self, session_id: &ObjectId) -> (r: Result<(), DbErr>)
        requires
            old(self).wf(),
        ensures
            final(self).wf(),
            r is Ok,
            final(self)@ == (StoreModel {
                sessions: crate::store::without_session(old(self)@.sessions, session_id.bytes@),
                ..old(self)@
            }),
    {
        self.ctx.drop_session(session_id)
    }

    pub fn query_all_meta(&mut self, session_id: Option<&ObjectId>) -> (r: Result<Vec<Document>, DbErr>)
        ensures
            match r {
                Ok(metas) => session_ok(old(self)@, session_arg(session_id)) && crate::store::docs_view(metas@)
                    == metas_of(old(self)@.collections),
                Err(e) => !session_ok(old(self)@, session_arg(session_id)) && err_kind(e)
                    == Failure::SessionOutdated,
            },
            final(self)@ == old(self)@,
            final(self).wf() == old(self).wf(),
    {
        self.ctx.query_all_meta(session_id)
    }

    /// The names of the collections, in order.
    pub fn list_collection_names(&mut self) -> (r: Result<Vec<String>, DbErr>)
        ensures
            final(self)@ == old(self)@,
            final(self).wf() == old(self).wf(),
            r matches Ok(names) && names@.len() == old(self)@.collections.len() && forall|i: int|
                0 <= i < names@.len() ==> (#[trigger] names@[i])@ == collection_names(
                    old(self)@.collections,
                )[i],
            old(self).wf() ==> (r matches Ok(names) && forall|i: int, j: int|
                0 <= i < j < names@.len() ==> (#[trigger] names@[i])@ != (#[trigger] names@[j])@),
    {
        let doc_meta = match self.query_all_meta(None) {
            Ok(m) => m,
            Err(e) => return Err(e),
        };
        proof {
            lemma_metas_named(self@.collections);
            let cols = self@.collections;
            assert(crate::store::docs_view(doc_meta@).len() == doc_meta@.len());
            assert forall|i: int| 0 <= i < doc_meta@.len() implies (#[trigger] meta_name(doc_meta@[i]@)) == Some(cols[i].name) by {
                assert(crate::store::docs_view(doc_meta@)[i] == doc_meta@[i]@);
                assert(metas_of(cols)[i] == meta_doc(cols[i].name));
                lemma_meta_name(cols[i].name);
            }
        }
        Ok(DatabaseInner::collection_metas_to_names(doc_meta))
    }

    /// The names of the collections, in order, under the session.
    pub fn list_collection_names_with_session(&mut self, session: &mut ClientSession) -> (r: Result<
        Vec<String>,
        DbErr,
    >)
        ensures
            match r {
                Ok(names) => session_ok(old(self)@, Some(old(session).id.bytes@)) && names@.len()
                    == old(self)@.collections.len() && forall|i: int|
                    0 <= i < names@.len() ==> (#[trigger] names@[i])@ == collection_names(
                        old(self)@.collections,
                    )[i],
                Err(e) => !session_ok(old(self)@, Some(old(session).id.bytes@)) && err_kind(e)
                    == Failure::SessionOutdated,
            },
            final(self)@ == old(self)@,
            final(self).wf() == old(self).wf(),
            final(session).id == old(session).id,
            old(self).wf() ==> (r matches Ok(names) ==> forall|i: int, j: int|
                0 <= i < j < names@.len() ==> (#[trigger] names@[i])@ != (#[trigger] names@[j])@),
    {
        let doc_meta = match self.query_all_meta(Some(&session.id)) {
            Ok(m) => m,
            Err(e) => return Err(e),
        };
        proof {
            lemma_metas_named(self@.collections);
            let cols = self@.collections;
            assert(crate::store::docs_view(doc_meta@).len() == doc_meta@.len());
            assert forall|i: int| 0 <= i < doc_meta@.len() implies (#[trigger] meta_name(doc_meta@[i]@)) == Some(cols[i].name) by {
                assert(crate::store::docs_view(doc_meta@)[i] == doc_meta@[i]@);
                assert(metas_of(cols)[i] == meta_doc(cols[i].name));
                lemma_meta_name(cols[i].name);
            }
        }
        Ok(DatabaseInner::collection_metas_to_names(doc_meta))
    }

    /// The name that each description holds, in order.
    pub fn collection_metas_to_names(doc_meta: Vec<Document>) -> (r: Vec<String>)
        requires
            forall|i: int| 0 <= i < doc_meta@.len() ==> (#[trigger] meta_name(doc_meta@[i]@)) is Some,
        ensures
            r@.len() == doc_meta@.len(),
            forall|i: int| 0 <= i < r@.len() ==> (#[trigger] r@[i])@ == meta_name(doc_meta@[i]@)->0,
    {
        let mut names: Vec<String> = Vec::new();
        let mut i: usize = 0;
        while i < doc_meta.len()
            invariant
                i <= doc_meta.len(),
                names@.len() == i,
                forall|j: int| 0 <= j < doc_meta@.len() ==> (#[trigger] meta_name(doc_meta@[j]@)) is Some,
                forall|j: int| 0 <= j < i ==> (#[trigger] names@[j])@ == meta_name(doc_meta@[j]@)->0,
            decreases doc_meta.len() - i,
        {
            assert(meta_name(doc_meta@[i as int]@) is Some);
            let name = match doc_meta[i].get("name") {
                Some(Value::String(s)) => s.clone(),
                _ => {
                    assert(false);
                    String::new()
                },
            };
            names.push(name);
            i = i + 1;
        }
        names
    }

    /// The number of documents of the collection named `name`; zero where it is missing.
    pub fn count_documents(&mut self, name: &str, session_id: Option<&ObjectId>) -> (r: Result<
        u64,
        DbErr,
    >)
        requires
            old(self).wf(),
        ensures
            final(self).wf(),
            final(self)@ == old(self)@,
            count_outcome(old(self)@, name@, session_arg(session_id), r),
    {
        let meta_opt = match self.get_collection_meta_by_name(name, false, session_id) {
            Ok(m) => m,
            Err(e) => return Err(e),
        };
        match meta_opt {
            None => Ok(0),
            Some(col_meta) => {
                proof {
                    lemma_find_col(self@.collections, name@);
                }
                self.ctx.count(col_meta.id, session_id)
            },
        }
    }

    /// The first document of `col_name` that the filter selects.
    pub fn find_one(&mut self, col_name: &str, filter: Option<Document>, session_id: Option<&ObjectId>) -> (r:
        Result<Option<Document>, DbErr>)
        requires
            old(self).wf(),
        ensures
            final(self).wf(),
            final(self)@ == old(self)@,
            first_result(r) == first_of(find_result(old(self)@, col_name@, filter_opt(filter), session_arg(session_id))),
    {
        let meta_opt = match self.get_collection_meta_by_name(col_name, false, session_id) {
            Ok(m) => m,
            Err(e) => return Err(e),
        };
        match meta_opt {
            None => Ok(None),
            Some(col_meta) => {
                proof {
                    lemma_find_col(self@.collections, col_name@);
                }
                let found = match &filter {
                    Some(f) => self.ctx.find(col_meta.id, Some(f), session_id),
                    None => self.ctx.find(col_meta.id, None, session_id),
                };
                match found {
                    Err(e) => Err(e),
                    Ok(mut docs) => {
                        if docs.len() == 0 {
                            assert(crate::store::docs_view(docs@) =~= Seq::<DocModel>::empty());
                            Ok(None)
                        } else {
                            let ghost dv = crate::store::docs_view(docs@);
                            let first = docs.remove(0);
                            assert(dv[0] == first@);
                            Ok(Some(first))
                        }
                    },
                }
            },
        }
    }

    /// The documents of `col_name` that the filter selects, in order.
    pub fn find_many(&mut self, col_name: &str, filter: Option<Document>, session_id: Option<&ObjectId>) -> (r:
        Result<Vec<Document>, DbErr>)
        requires
            old(self).wf(),
        ensures
            final(self).wf(),
            final(self)@ == old(self)@,
            docs_result(r) == find_result(old(self)@, col_name@, filter_opt(filter), session_arg(session_id)),
    {
        let meta_opt = match self.get_collection_meta_by_name(col_name, false, session_id) {
            Ok(m) => m,
            Err(e) => return Err(e),
        };
        match meta_opt {
            Some(col_meta) => {
                proof {
                    lemma_find_col(self@.collections, col_name@);
                }
                match &filter {
                    Some(f) => self.ctx.find(col_meta.id, Some(f), session_id),
                    None => self.ctx.find(col_meta.id, None, session_id),
                }
            },
            None => {
                let v: Vec<Document> = Vec::new();
                assert(crate::store::docs_view(v@) =~= Seq::<DocModel>::empty());
                Ok(v)
            },
        }
    }

    /// Inserts `doc` into `col_name`, creating the collection where it is
    /// missing; a document without `_id` gets a fresh one in front.
    pub fn insert_one(&mut self, col_name: &str, doc: Document, session_id: Option<&ObjectId>) -> (r:
        Result<InsertOneResult, DbErr>)
        requires
            old(self).wf(),
        ensures
            final(self).wf(),
            exists|fresh: Seq<u8>|
                insert_one_outcome(
                    old(self)@,
                    final(self)@,
                    col_name@,
                    doc@,
                    fresh,
                    session_arg(session_id),
                    #[trigger] insert_one_result(r),
                ),
    {
        let ghost d = doc@;
        let r = self.ctx.insert_one_auto(col_name, doc, session_id);
        proof {
            let fresh = choose|fresh: Seq<u8>|
                insert_one_outcome(
                    old(self).ctx@,
                    self.ctx@,
                    col_name@,
                    d,
                    fresh,
                    session_arg(session_id),
                    #[trigger] insert_one_result(r),
                );
            assert(insert_one_outcome(old(self)@, self@, col_name@, d, fresh, session_arg(session_id), insert_one_result(r)));
        }
        r
    }

    /// Inserts the documents in order into `col_name`, all or nothing.
    pub fn insert_many(&mut self, col_name: &str, docs: Vec<Document>, session_id: Option<&ObjectId>) -> (r:
        Result<InsertManyResult, DbErr>)
        requires
            old(self).wf(),
        ensures
            final(self).wf(),
            exists|fresh: Seq<Seq<u8>>|
                fresh.len() == docs@.len() && insert_many_outcome(
                    old(self)@,
                    final(self)@,
                    col_name@,
                    crate::store::docs_view(docs@),
                    fresh,
                    session_arg(session_id),
                    #[trigger] insert_many_result(r),
                ),
    {
        let ghost ds = crate::store::docs_view(docs@);
        let ghost n = docs@.len();
        let r = self.ctx.insert_many_auto(col_name, docs, session_id);
        proof {
            let fresh = choose|fresh: Seq<Seq<u8>>|
                fresh.len() == n && insert_many_outcome(
                    old(self).ctx@,
                    self.ctx@,
                    col_name@,
                    ds,
                    fresh,
                    session_arg(session_id),
                    #[trigger] insert_many_result(r),
                );
            assert(insert_many_outcome(old(self)@, self@, col_name@, ds, fresh, session_arg(session_id), insert_many_result(r)));
        }
        r
    }

    fn update_in(
        &mut self,
        col_name: &str,
        query: Document,
        update: Document,
        multi: bool,
        session_id: Option<&ObjectId>,
    ) -> (r: Result<UpdateResult, DbErr>)
        requires
            old(self).wf(),
        ensures
            final(self).wf(),
            update_outcome(old(self)@, final(self)@, col_name@, query@, update@, multi, session_arg(session_id), r),
    {
        let meta_opt = match self.get_collection_meta_by_name(col_name, false, session_id) {
            Ok(m) => m,
            Err(e) => return Err(e),
        };
        let modified_count: u64 = match meta_opt {
            Some(col_meta) => {
                proof {
                    lemma_find_col(self@.collections, col_name@);
                }
                let size = match self.ctx.update(col_meta.id, &query, &update, multi, session_id) {
                    Ok(n) => n,
                    Err(e) => return Err(e),
                };
                size as u64
            },
            None => 0,
        };
        Ok(UpdateResult { modified_count })
    }

    /// Updates the first document of `col_name` that `query` selects.
    pub fn update_one(&mut self, col_name: &str, query: Document, update: Document, session_id: Option<&ObjectId>) -> (r:
        Result<UpdateResult, DbErr>)
        requires
            old(self).wf(),
        ensures
            final(self).wf(),
            update_outcome(old(self)@, final(self)@, col_name@, query@, update@, false, session_arg(session_id), r),
    {
        self.update_in(col_name, query, update, false, session_id)
    }

    /// Updates every document of `col_name` that `query` selects.
    pub fn update_many(&mut self, col_name: &str, query: Document, update: Document, session_id: Option<&ObjectId>) -> (r:
        Result<UpdateResult, DbErr>)
        requires
            old(self).wf(),
        ensures
            final(self).wf(),
            update_outcome(old(self)@, final(self)@, col_name@, query@, update@, true, session_arg(session_id), r),
    {
        self.update_in(col_name, query, update, true, session_id)
    }

    /// Removes the first document of `col_name` that `query` selects.
    pub fn delete_one(&mut self, col_name: &str, query: Document, session_id: Option<&ObjectId>) -> (r: Result<
        DeleteResult,
        DbErr,
    >)
        requires
            old(self).wf(),
        ensures
            final(self).wf(),
            delete_outcome(old(self)@, final(self)@, col_name@, query@, false, session_arg(session_id), r),
    {
        let meta_opt = match self.get_collection_meta_by_name(col_name, false, session_id) {
            Ok(m) => m,
            Err(e) => return Err(e),
        };
        let deleted_count: u64 = match meta_opt {
            Some(col_meta) => {
                proof {
                    lemma_find_col(self@.collections, col_name@);
                }
                let count = match self.ctx.delete(col_meta.id, &query, false, session_id) {
                    Ok(n) => n,
                    Err(e) => return Err(e),
                };
                count as u64
            },
            None => 0,
        };
        Ok(DeleteResult { deleted_count })
    }

    /// Removes every document of `col_name` that `query` selects; all of
    /// them where `query` is empty.
    pub fn delete_many(&mut self, col_name: &str, query: Document, session_id: Option<&ObjectId>) -> (r: Result<
        DeleteResult,
        DbErr,
    >)
        requires
            old(self).wf(),
        ensures
            final(self).wf(),
            delete_outcome(old(self)@, final(self)@, col_name@, query@, true, session_arg(session_id), r),
    {
        let meta_opt = match self.get_collection_meta_by_name(col_name, false, session_id) {
            Ok(m) => m,
            Err(e) => return Err(e),
        };
        let deleted_count: u64 = match meta_opt {
            Some(col_meta) => {
                proof {
                    lemma_find_col(self@.collections, col_name@);
                }
                let count = if query.len() == 0 {
                    match self.ctx.delete_all(col_meta.id, session_id) {
                        Ok(n) => n,
                        Err(e) => return Err(e),
                    }
                } else {
                    match self.ctx.delete(col_meta.id, &query, true, session_id) {
                        Ok(n) => n,
                        Err(e) => return Err(e),
                    }
                };
                count as u64
            },
            None => 0,
        };
        Ok(DeleteResult { deleted_count })
    }

    /// Removes the collection `col_name`; nothing happens where it is missing.
    pub fn drop_collection(&mut self, col_name: &str, session_id: Option<&ObjectId>) -> (r: Result<(), DbErr>)
        requires
            old(self).wf(),
        ensures
            final(self).wf(),
            drop_outcome(old(self)@, final(self)@, col_name@, session_arg(session_id), r),
    {
        let info = match self.get_collection_meta_by_name(col_name, false, session_id) {
            Ok(None) => {
                return Ok(());
            },
            Err(DbErr::CollectionNotFound(_)) => {
                return Ok(());
            },
            Ok(Some(meta)) => meta,
            Err(err) => return Err(err),
        };
        proof {
            lemma_find_col(self@.collections, col_name@);
        }
        self.ctx.drop_collection(info.id, session_id)
    }

    /// Adds `keys` to the indexes of `col_name`, creating the collection
    /// where it is missing.
    pub fn create_index(
        &mut self,
        col_name: &str,
        keys: &Document,
        options: Option<&Document>,
        session_id: Option<&ObjectId>,
    ) -> (r: Result<(), DbErr>)
        requires
            old(self).wf(),
        ensures
            final(self).wf(),
            create_index_outcome(old(self)@, final(self)@, col_name@, keys@, session_arg(session_id), r),
    {
        proof {
            lemma_auto_create(self@.collections, col_name@);
        }
        let col_meta = match self.get_collection_meta_by_name(col_name, true, session_id) {
            Ok(Some(m)) => m,
            Ok(None) => {
                assert(false);
                return Err(DbErr::SessionOutdated);
            },
            Err(e) => return Err(e),
        };
        proof {
            lemma_find_col(self@.collections, col_name@);
        }
        self.ctx.create_index(col_meta.id, keys, options, session_id)
    }


    pub fn handle_start_transaction(&mut self, start_transaction: StartTransactionCommand) -> (r: Result<
        Reply,
        DbErr,
    >)
        requires
            old(self).wf(),
        ensures
            final(self).wf(),
            start_transaction_outcome(old(self)@, final(self)@, start_transaction.ty, r),
    {
        match self.start_transaction(start_transaction.ty) {
            Ok(()) => Ok(Reply::Null),
            Err(e) => Err(e),
        }
    }

    /// Answers a request.
    pub fn handle_request_doc(&mut self, command_message: CommandMessage) -> (r: Result<
        HandleRequestResult,
        DbErr,
    >)
        requires
            old(self).wf(),
        ensures
            final(self).wf(),
            match r {
                Ok(res) => res.is_quit == (command_message is SafelyQuit) && request_outcome(
                    old(self)@,
                    final(self)@,
                    command_message,
                    Ok(res.value),
                ),
                Err(e) => request_outcome(old(self)@, final(self)@, command_message, Err(e)),
            },
    {
        let is_quit = if let CommandMessage::SafelyQuit = command_message {
            true
        } else {
            false
        };
        let ghost cmd = command_message;
        let result_value = match command_message {
            CommandMessage::Find(find) => self.handle_find_operation(find),
            CommandMessage::Insert(insert) => self.handle_insert_operation(insert),
            CommandMessage::Update(update) => self.handle_update_operation(update),
            CommandMessage::Delete(delete) => self.handle_delete_operation(delete),
            CommandMessage::CreateCollection(create_collection) => self.handle_create_collection(
                create_collection,
            ),
            CommandMessage::DropCollection(drop_collection) => self.handle_drop_collection(
                drop_collection,
            ),
            CommandMessage::StartTransaction(start_transaction) => self.handle_start_transaction(
                start_transaction,
            ),
            CommandMessage::Commit => match self.commit() {
                Ok(()) => Ok(Reply::Null),
                Err(e) => Err(e),
            },
            CommandMessage::Rollback => match self.rollback() {
                Ok(()) => Ok(Reply::Null),
                Err(e) => Err(e),
            },
            CommandMessage::SafelyQuit => Ok(Reply::Null),
            CommandMessage::CountDocuments(count_documents) => self.handle_count_operation(
                count_documents,
            ),
        };
        match result_value {
            Ok(value) => Ok(HandleRequestResult { is_quit, value }),
            Err(e) => Err(e),
        }
    }

    pub fn handle_find_operation(&mut self, find: FindCommand) -> (r: Result<Reply, DbErr>)
        requires
            old(self).wf(),
        ensures
            final(self).wf(),
            find_reply_outcome(old(self)@, final(self)@, find, r),
    {
        let ghost c = find;
        let FindCommand { ns, filter, multi, options } = find;
        let session_id = session_of(&options);
        let col_name = ns.as_str();
        let result = if multi {
            match self.find_many(col_name, filter, session_id) {
                Ok(v) => v,
                Err(e) => return Err(e),
            }
        } else {
            match self.find_one(col_name, filter, session_id) {
                Ok(Some(doc)) => {
                    let mut v: Vec<Document> = Vec::new();
                    v.push(doc);
                    assert(crate::store::docs_view(v@) =~= seq![v@[0]@]);
                    v
                },
                Ok(None) => {
                    let v: Vec<Document> = Vec::new();
                    assert(crate::store::docs_view(v@) =~= Seq::<DocModel>::empty());
                    v
                },
                Err(e) => return Err(e),
            }
        };
        Ok(Reply::Documents(result))
    }

    pub fn handle_insert_operation(&mut self, insert: InsertCommand) -> (r: Result<Reply, DbErr>)
        requires
            old(self).wf(),
        ensures
            final(self).wf(),
            insert_reply_outcome(old(self)@, final(self)@, insert, r),
    {
        let ghost c = insert;
        let InsertCommand { ns, documents, options } = insert;
        let session_id = session_of(&options);
        let r = self.insert_many(ns.as_str(), documents, session_id);
        let out = match r {
            Ok(res) => Ok(Reply::Inserted(res)),
            Err(e) => Err(e),
        };
        assert(inserted_result(out) == insert_many_result(r));
        out
    }

    pub fn handle_update_operation(&mut self, update: UpdateCommand) -> (r: Result<Reply, DbErr>)
        requires
            old(self).wf(),
        ensures
            final(self).wf(),
            update_reply_outcome(old(self)@, final(self)@, update, r),
    {
        let UpdateCommand { ns, filter, update, multi, options } = update;
        let session_id = session_of(&options);
        let col_name: &str = ns.as_str();
        let result = if multi {
            self.update_many(col_name, filter, update, session_id)
        } else {
            self.update_one(col_name, filter, update, session_id)
        };
        match result {
            Ok(res) => Ok(Reply::Updated(res)),
            Err(e) => Err(e),
        }
    }

    pub fn handle_delete_operation(&mut self, delete: DeleteCommand) -> (r: Result<Reply, DbErr>)
        requires
            old(self).wf(),
        ensures
            final(self).wf(),
            delete_reply_outcome(old(self)@, final(self)@, delete, r),
    {
        let DeleteCommand { ns, filter, multi, options } = delete;
        let session_id = session_of(&options);
        let col_name: &str = ns.as_str();
        let result = if multi {
            self.delete_many(col_name, filter, session_id)
        } else {
            self.delete_one(col_name, filter, session_id)
        };
        match result {
            Ok(res) => Ok(Reply::Deleted(res)),
            Err(e) => Err(e),
        }
    }

    pub fn handle_create_collection(&mut self, create_collection: CreateCollectionCommand) -> (r: Result<
        Reply,
        DbErr,
    >)
        requires
            old(self).wf(),
        ensures
            final(self).wf(),
            create_reply_outcome(old(self)@, final(self)@, create_collection, r),
    {
        let CreateCollectionCommand { ns, options } = create_collection;
        let ret = match self.create_collection(ns.as_str(), session_of(&options)) {
            Ok(_) => true,
            Err(DbErr::CollectionAlreadyExits(_)) => false,
            Err(err) => return Err(err),
        };
        Ok(Reply::Created(ret))
    }

    pub fn handle_drop_collection(&mut self, drop: DropCollectionCommand) -> (r: Result<Reply, DbErr>)
        requires
            old(self).wf(),
        ensures
            final(self).wf(),
            drop_reply_outcome(old(self)@, final(self)@, drop, r),
    {
        let DropCollectionCommand { ns, options } = drop;
        let col_name = ns.as_str();
        let session_id = session_of(&options);
        let info = match self.ctx.get_collection_meta_by_name(col_name, session_id) {
            Ok(meta) => meta,
            Err(DbErr::CollectionNotFound(_)) => {
                return Ok(Reply::Null);
            },
            Err(err) => return Err(err),
        };
        proof {
            lemma_find_col(self@.collections, col_name@);
        }
        match self.ctx.drop_collection(info.id, session_id) {
            Ok(()) => Ok(Reply::Null),
            Err(e) => Err(e),
        }
    }

    pub fn handle_count_operation(&mut self, count_documents: CountDocumentsCommand) -> (r: Result<
        Reply,
        DbErr,
    >)
        requires
            old(self).wf(),
        ensures
            final(self).wf(),
            count_reply_outcome(old(self)@, final(self)@, count_documents, r),
    {
        let CountDocumentsCommand { ns, options } = count_documents;
        let count = match self.count_documents(ns.as_str(), session_of(&options)) {
            Ok(n) => n,
            Err(e) => return Err(e),
        };
        Ok(Reply::Count(count as i64))
    }

}

proof fn lemma_metas_named(cols: Seq<CollectionModel>)
    ensures
        forall|i: int| 0 <= i < cols.len() ==> (#[trigger] meta_name(metas_of(cols)[i])) == Some(cols[i].name),
{
    assert forall|i: int| 0 <= i < cols.len() implies (#[trigger] meta_name(metas_of(cols)[i])) == Some(
        cols[i].name,
    ) by {
        lemma_meta_name(cols[i].name);
    }
}

} // verus!
