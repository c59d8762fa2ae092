//! Fresh object identifiers.
use vstd::prelude::*;
use crate::value::ObjectId;

verus! {

/// A fresh identifier from `bson::oid::ObjectId::new`, as its twelve bytes.
/// Nothing is stated of the bytes: they come from the clock, a random process
/// value and a counter. (`ObjectId::new` panics only where the system clock
/// reads before 1970 or after 2106.)
#[verifier::external_body]
pub(crate) fn new_object_id() -> (r: ObjectId) {
    ObjectId { bytes: bson::oid::ObjectId::new().bytes() }
}

} // verus!
