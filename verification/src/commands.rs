//! The requests that the database answers.
use vstd::prelude::*;
use crate::model::TransactionType;
use crate::value::{Document, ObjectId};

verus! {

/// Options that any request may carry.
#[derive(Debug)]
pub struct CommandOptions {
    pub session_id: Option<ObjectId>,
}

/// Find the documents of `ns` that `filter` selects (all, or the first).
#[derive(Debug)]
pub struct FindCommand {
    pub ns: String,
    pub filter: Option<Document>,
    pub multi: bool,
    pub options: Option<CommandOptions>,
}

/// Insert `documents` into `ns`.
#[derive(Debug)]
pub struct InsertCommand {
    pub ns: String,
    pub documents: Vec<Document>,
    pub options: Option<CommandOptions>,
}

/// Update the documents of `ns` that `filter` selects (all, or the first).
#[derive(Debug)]
pub struct UpdateCommand {
    pub ns: String,
    pub filter: Document,
    pub update: Document,
    pub multi: bool,
    pub options: Option<CommandOptions>,
}

/// Delete the documents of `ns` that `filter` selects (all, or the first).
#[derive(Debug)]
pub struct DeleteCommand {
    pub ns: String,
    pub filter: Document,
    pub multi: bool,
    pub options: Option<CommandOptions>,
}

/// Create the collection `ns`.
#[derive(Debug)]
pub struct CreateCollectionCommand {
    pub ns: String,
    pub options: Option<CommandOptions>,
}

/// Drop the collection `ns`.
#[derive(Debug)]
pub struct DropCollectionCommand {
    pub ns: String,
    pub options: Option<CommandOptions>,
}

/// Open a transaction.
#[derive(Debug)]
pub struct StartTransactionCommand {
    pub ty: Option<TransactionType>,
}

/// Count the documents of `ns`.
#[derive(Debug)]
pub struct CountDocumentsCommand {
    pub ns: String,
    pub options: Option<CommandOptions>,
}

/// A request.
#[derive(Debug)]
pub enum CommandMessage {
    Find(FindCommand),
    Insert(InsertCommand),
    Update(UpdateCommand),
    Delete(DeleteCommand),
    CreateCollection(CreateCollectionCommand),
    DropCollection(DropCollectionCommand),
    StartTransaction(StartTransactionCommand),
    Commit,
    Rollback,
    SafelyQuit,
    CountDocuments(CountDocumentsCommand),
}

/// The session that a request's options name, if any.
pub open spec fn options_session(options: Option<CommandOptions>) -> Option<Seq<u8>> {
    match options {
        Some(o) => match o.session_id {
            Some(id) => Some(id.bytes@),
            None => None,
        },
        None => None,
    }
}

/// Exec: the session that a request's options name, if any.
pub fn session_of(options: &Option<CommandOptions>) -> (r: Option<&ObjectId>)
    ensures
        match r {
            Some(id) => options_session(*options) == Some(id.bytes@),
            None => options_session(*options) is None,
        },
{
    match options {
        Some(o) => match &o.session_id {
            Some(id) => Some(id),
            None => None,
        },
        None => None,
    }
}

} // verus!
