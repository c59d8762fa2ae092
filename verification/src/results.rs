//! What the writing operations report.
use vstd::prelude::*;
use crate::value::Value;

verus! {

/// The `_id` of the inserted document.
#[derive(Debug)]
pub struct InsertOneResult {
    pub inserted_id: Value,
}

/// The `_id`s of the inserted documents, in the order of the input.
#[derive(Debug)]
pub struct InsertManyResult {
    pub inserted_ids: Vec<Value>,
}

/// How many documents an update changed.
#[derive(Debug)]
pub struct UpdateResult {
    pub modified_count: u64,
}

/// How many documents a delete removed.
#[derive(Debug)]
pub struct DeleteResult {
    pub deleted_count: u64,
}

} // verus!
