//! Updates: how a matched document is changed.
//!
//! An update is a document of operations, applied in order. `"$set"` takes a
//! document whose fields are set on the target (replaced in place, or appended);
//! `"$unset"` takes a document whose keys are removed from the target. Any other
//! operation, or an argument that is not a document, is refused, and so is an
//! update that names `_id`.
use vstd::prelude::*;
use crate::value::{
    doc_insert, doc_remove, key_index, key_is, lemma_fields_view_index, lemma_fields_view_len,
    lemma_key_index_from, DocModel, Document, Value, ValueModel,
};
use crate::error::DbErr;

verus! {

pub open spec fn set_key() -> Seq<char> {
    "$set"@
}

pub open spec fn unset_key() -> Seq<char> {
    "$unset"@
}

pub open spec fn id_key() -> Seq<char> {
    "_id"@
}

/// One operation of an update is known and has a document argument.
pub open spec fn update_op_valid(op: Seq<char>, arg: ValueModel) -> bool {
    (op == set_key() || op == unset_key()) && arg is Document
}

/// Every operation of the update is known and has a document argument.
pub open spec fn update_ops_valid(u: DocModel) -> bool {
    forall|i: int| 0 <= i < u.len() ==> #[trigger] update_op_valid(u[i].0, u[i].1)
}

/// Some operation of the update names `_id`.
pub open spec fn update_touches_id(u: DocModel) -> bool {
    exists|i: int|
        0 <= i < u.len() && match #[trigger] u[i].1 {
            ValueModel::Document(a) => key_index(a, id_key()) is Some,
            _ => false,
        }
}

/// What checking the update gives: `InvalidUpdate` before `UnableToUpdatePrimaryKey`.
pub open spec fn update_accepted(u: DocModel) -> bool {
    update_ops_valid(u) && !update_touches_id(u)
}

/// `d` with each field of `a` set in turn.
pub open spec fn set_fields(d: DocModel, a: DocModel) -> DocModel
    decreases a.len(),
{
    if a.len() == 0 {
        d
    } else {
        doc_insert(set_fields(d, a.drop_last()), a.last().0, a.last().1)
    }
}

/// `d` without each key of `a` in turn.
pub open spec fn unset_fields(d: DocModel, a: DocModel) -> DocModel
    decreases a.len(),
{
    if a.len() == 0 {
        d
    } else {
        doc_remove(unset_fields(d, a.drop_last()), a.last().0)
    }
}

/// One operation applied to `d`.
pub open spec fn apply_op(d: DocModel, op: Seq<char>, arg: ValueModel) -> DocModel {
    match arg {
        ValueModel::Document(a) => if op == set_key() {
            set_fields(d, a)
        } else if op == unset_key() {
            unset_fields(d, a)
        } else {
            d
        },
        _ => d,
    }
}

/// The update applied to `d`, operation by operation.
pub open spec fn apply_update(d: DocModel, u: DocModel) -> DocModel
    decreases u.len(),
{
    if u.len() == 0 {
        d
    } else {
        apply_op(apply_update(d, u.drop_last()), u.last().0, u.last().1)
    }
}

/// Accepts the update, or refuses it with the first error in the order
/// `InvalidUpdate`, `UnableToUpdatePrimaryKey`.
pub fn check_update(u: &Document) -> (r: Result<(), DbErr>)
    ensures
        r is Ok <==> update_accepted(u@),
        r matches Err(e) ==> (!update_ops_valid(u@) ==> e is InvalidUpdate) && (update_ops_valid(u@)
            ==> e is UnableToUpdatePrimaryKey),
{
    let n = u.fields.len();
    proof {
        lemma_fields_view_len(u.fields@);
    }
    let mut i: usize = 0;
    while i < n
        invariant
            i <= n,
            n == u.fields.len(),
            u@.len() == n,
            forall|j: int| 0 <= j < i ==> #[trigger] update_op_valid(u@[j].0, u@[j].1),
        decreases n - i,
    {
        proof {
            lemma_fields_view_index(u.fields@, i as int);
        }
        let op = &u.fields[i].0;
        let known = key_is(op, "$set") || key_is(op, "$unset");
        let is_doc = match &u.fields[i].1 {
            Value::Document(_) => true,
            _ => false,
        };
        if !(known && is_doc) {
            assert(!update_op_valid(u@[i as int].0, u@[i as int].1));
            return Err(DbErr::InvalidUpdate);
        }
        i = i + 1;
    }
    let mut i: usize = 0;
    while i < n
        invariant
            i <= n,
            n == u.fields.len(),
            u@.len() == n,
            update_ops_valid(u@),
            forall|j: int|
                0 <= j < i ==> match #[trigger] u@[j].1 {
                    ValueModel::Document(a) => key_index(a, id_key()) is None,
                    _ => true,
                },
        decreases n - i,
    {
        proof {
            lemma_fields_view_index(u.fields@, i as int);
        }
        match &u.fields[i].1 {
            Value::Document(a) => {
                if a.find_key("_id").is_some() {
                    assert(u@[i as int].1 == ValueModel::Document(a@));
                    assert(update_touches_id(u@));
                    return Err(DbErr::UnableToUpdatePrimaryKey);
                }
            },
            _ => {},
        }
        i = i + 1;
    }
    Ok(())
}

/// Applies an accepted update to `doc`.
pub fn apply_update_to(doc: &mut Document, u: &Document)
    requires
        update_ops_valid(u@),
    ensures
        final(doc)@ == apply_update(old(doc)@, u@),
{
    let ghost d0 = doc@;
    let n = u.fields.len();
    proof {
        lemma_fields_view_len(u.fields@);
    }
    let mut i: usize = 0;
    while i < n
        invariant
            i <= n,
            n == u.fields.len(),
            u@.len() == n,
            update_ops_valid(u@),
            doc@ == apply_update(d0, u@.take(i as int)),
        decreases n - i,
    {
        proof {
            lemma_fields_view_index(u.fields@, i as int);
            assert(u@.take(i + 1).drop_last() =~= u@.take(i as int));
            assert(update_op_valid(u@[i as int].0, u@[i as int].1));
        }
        let is_set = key_is(&u.fields[i].0, "$set");
        match &u.fields[i].1 {
            Value::Document(a) => {
                if is_set {
                    set_all(doc, a);
                } else {
                    unset_all(doc, a);
                }
            },
            _ => {},
        }
        i = i + 1;
    }
    assert(u@.take(n as int) =~= u@);
}

fn set_all(doc: &mut Document, a: &Document)
    ensures
        final(doc)@ == set_fields(old(doc)@, a@),
{
    let ghost d0 = doc@;
    let n = a.fields.len();
    proof {
        lemma_fields_view_len(a.fields@);
    }
    let mut j: usize = 0;
    while j < n
        invariant
            j <= n,
            n == a.fields.len(),
            a@.len() == n,
            doc@ == set_fields(d0, a@.take(j as int)),
        decreases n - j,
    {
        proof {
            lemma_fields_view_index(a.fields@, j as int);
            assert(a@.take(j + 1).drop_last() =~= a@.take(j as int));
        }
        let k = a.fields[j].0.clone();
        let v = a.fields[j].1.duplicate();
        doc.insert(k, v);
        j = j + 1;
    }
    assert(a@.take(n as int) =~= a@);
}

fn unset_all(doc: &mut Document, a: &Document)
    ensures
        final(doc)@ == unset_fields(old(doc)@, a@),
{
    let ghost d0 = doc@;
    let n = a.fields.len();
    proof {
        lemma_fields_view_len(a.fields@);
    }
    let mut j: usize = 0;
    while j < n
        invariant
            j <= n,
            n == a.fields.len(),
            a@.len() == n,
            doc@ == unset_fields(d0, a@.take(j as int)),
        decreases n - j,
    {
        proof {
            lemma_fields_view_index(a.fields@, j as int);
            assert(a@.take(j + 1).drop_last() =~= a@.take(j as int));
        }
        doc.remove(a.fields[j].0.as_str());
        j = j + 1;
    }
    assert(a@.take(n as int) =~= a@);
}

} // verus!
