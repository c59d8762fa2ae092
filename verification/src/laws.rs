//! Properties that span operations.
use vstd::prelude::*;
use crate::db::{create_outcome, delete_outcome, docs_of, drop_outcome, find_result, rollback_outcome, Reply};
use crate::error::DbErr;
use crate::model::{
    collection_names, doc_id, docs_keyed, insert_all, insert_failure, find_col, lemma_find_col, reject, select, session_ok,
    store_wf, with_id, CollectionModel, StoreModel, TransactionType, insert_into, auto_create,
    lemma_auto_create, names_unique, with_collections, lemma_find_col_at,
};
use crate::query::{and_key, doc_matches, filter_valid, or_key};
use crate::store::insert_one_outcome;
use crate::update::id_key;
use crate::value::{doc_get, DocModel, ValueModel};

verus! {

/// The filter that selects the documents whose `_id` is `id`.
pub open spec fn id_filter(id: ValueModel) -> DocModel {
    seq![(id_key(), id)]
}

proof fn lemma_id_filter(id: ValueModel, d: DocModel)
    ensures
        filter_valid(id_filter(id)),
        doc_matches(d, id_filter(id)) == (doc_id(d) == Some(id)),
{
    reveal_strlit("_id");
    reveal_strlit("$and");
    reveal_strlit("$or");
    let f = id_filter(id);
    assert(f.drop_last() =~= Seq::<(Seq<char>, ValueModel)>::empty());
    assert(id_key().len() == 3 && and_key().len() == 4);
    assert(id_key()[0] == '_' && or_key()[0] == '$');
    assert(id_key() != and_key());
    assert(id_key() != or_key());
    assert(filter_valid(f.drop_last()));
    assert(doc_matches(d, f.drop_last()));
    assert(f.last() == (id_key(), id));
    assert(!crate::query::is_operator(id_key()));
    assert(crate::query::condition_valid(id_key(), id));
    assert(crate::query::condition_matches(d, id_key(), id) == (doc_get(d, id_key()) == Some(id)));
}

/// No document of `docs` is selected: the selection is empty.
proof fn lemma_select_none(docs: Seq<DocModel>, f: DocModel)
    requires
        forall|i: int| 0 <= i < docs.len() ==> !doc_matches(#[trigger] docs[i], f),
    ensures
        select(docs, f) == Seq::<DocModel>::empty(),
    decreases docs.len(),
{
    if docs.len() > 0 {
        assert forall|i: int| 0 <= i < docs.drop_last().len() implies !doc_matches(#[trigger] docs.drop_last()[i], f) by {
            assert(docs.drop_last()[i] == docs[i]);
        }
        lemma_select_none(docs.drop_last(), f);
        assert(docs.last() == docs[docs.len() - 1]);
    }
}

/// What a filter does not reject it does not select: selecting from the
/// rejected documents gives nothing, and the two parts add up to the whole.
proof fn lemma_select_reject(docs: Seq<DocModel>, f: DocModel)
    ensures
        select(reject(docs, f), f) == Seq::<DocModel>::empty(),
        select(docs, f).len() + reject(docs, f).len() == docs.len(),
    decreases docs.len(),
{
    if docs.len() > 0 {
        lemma_select_reject(docs.drop_last(), f);
        let r = reject(docs.drop_last(), f);
        if !doc_matches(docs.last(), f) {
            assert(reject(docs, f).drop_last() =~= r);
        }
    }
}

/// Read after write: once `insert_one` has stored a document with `_id`
/// `id`, finding by that `_id` in the same collection gives exactly the stored
/// document.
pub proof fn law_insert_then_find_by_id(
    old: StoreModel,
    new: StoreModel,
    name: Seq<char>,
    d: DocModel,
    fresh: Seq<u8>,
    session: Option<Seq<u8>>,
    id: ValueModel,
)
    requires
        insert_one_outcome(old, new, name, d, fresh, session, Ok(id)),
    ensures
        find_result(new, name, id_filter(id), session) == Ok::<Seq<DocModel>, crate::model::Failure>(
            seq![with_id(d, fresh)],
        ),
        docs_of(new, name).len() == docs_of(old, name).len() + 1,
        collection_names(new.collections).contains(name),
{
    let w = with_id(d, fresh);
    let cs = auto_create(old.collections, name);
    lemma_auto_create(old.collections, name);
    lemma_find_col(cs, name);
    lemma_find_col(old.collections, name);
    let i = find_col(cs, name)->0;
    let c = cs[i];
    let newcols = cs.update(i, crate::model::with_docs(c, c.docs.push(w)));
    assert(new.collections == newcols);
    assert(new.sessions == old.sessions);
    lemma_find_col(newcols, name);
    assert(newcols[i].name == name);
    assert(find_col(newcols, name) == Some(i)) by {
        lemma_find_col(newcols, name);
        if find_col(newcols, name) != Some(i) {
            let j = find_col(newcols, name)->0;
            assert(newcols[j].name == cs[j].name);
        }
    }
    assert(docs_of(new, name) == c.docs.push(w));
    assert(collection_names(new.collections)[i] == name);
    if find_col(old.collections, name) is Some {
        assert(cs == old.collections);
    } else {
        assert(cs[i] == crate::model::empty_collection(name));
    }
    assert(docs_of(old, name) == c.docs);
    lemma_id_filter(id, w);
    assert(doc_id(w) == Some(id));
    assert forall|k: int| 0 <= k < c.docs.len() implies !doc_matches(#[trigger] c.docs[k], id_filter(id)) by {
        lemma_id_filter(id, c.docs[k]);
    }
    lemma_select_none(c.docs, id_filter(id));
    let all = c.docs.push(w);
    assert(all.drop_last() =~= c.docs);
    assert(select(all, id_filter(id)) =~= seq![w]);
}

/// Deleting by a filter leaves nothing for that filter to find, and the
/// count falls by the number reported.
pub proof fn law_delete_then_find_nothing(
    old: StoreModel,
    new: StoreModel,
    name: Seq<char>,
    f: DocModel,
    session: Option<Seq<u8>>,
    res: crate::results::DeleteResult,
)
    requires
        store_wf(old),
        filter_valid(f),
        delete_outcome(old, new, name, f, true, session, Ok(res)),
    ensures
        find_result(new, name, f, session) == Ok::<Seq<DocModel>, crate::model::Failure>(Seq::empty()),
        docs_of(new, name).len() + res.deleted_count == docs_of(old, name).len(),
{
    lemma_find_col(old.collections, name);
    match find_col(old.collections, name) {
        None => {
            assert(new == old);
        },
        Some(i) => {
            let c = old.collections[i];
            let remaining = if f.len() == 0 { Seq::<DocModel>::empty() } else { reject(c.docs, f) };
            let cols = old.collections.update(i, crate::model::with_docs(c, remaining));
            assert(new.collections == cols);
            assert forall|m: int| 0 <= m < i implies cols[m].name != name by {
                assert(cols[m] == old.collections[m]);
            }
            lemma_find_col_at(cols, name, i);
            assert(docs_of(new, name) == remaining);
            lemma_select_reject(c.docs, f);
            if f.len() == 0 {
                assert(select(Seq::<DocModel>::empty(), f) == Seq::<DocModel>::empty());
            }
        },
    }
}

/// Where a collection other than the one named `other` is removed, the
/// collection named `other` is found at its shifted place.
proof fn lemma_find_col_remove(cols: Seq<CollectionModel>, i: int, other: Seq<char>)
    requires
        0 <= i < cols.len(),
        cols[i].name != other,
    ensures
        match find_col(cols, other) {
            Some(j) => {
                let k = if j < i { j } else { j - 1 };
                find_col(cols.remove(i), other) == Some(k) && cols.remove(i)[k] == cols[j]
            },
            None => find_col(cols.remove(i), other) is None,
        },
{
    let r = cols.remove(i);
    lemma_find_col(cols, other);
    lemma_find_col(r, other);
    match find_col(cols, other) {
        Some(j) => {
            let k = if j < i { j } else { j - 1 };
            assert(r[k] == cols[j]);
            assert forall|m: int| 0 <= m < k implies r[m].name != other by {
                assert(r[m] == cols[if m < i { m } else { m + 1 }]);
            }
            lemma_find_col_at(r, other, k);
        },
        None => {
            if find_col(r, other) is Some {
                let m = find_col(r, other)->0;
                assert(r[m] == cols[if m < i { m } else { m + 1 }]);
            }
        },
    }
}

/// After a successful drop no collection of that name is left, and dropping
/// again changes nothing.
pub proof fn law_drop_removes(
    old: StoreModel,
    new: StoreModel,
    newer: StoreModel,
    name: Seq<char>,
    session: Option<Seq<u8>>,
    r2: Result<(), DbErr>,
)
    requires
        store_wf(old),
        drop_outcome(old, new, name, session, Ok(())),
        drop_outcome(new, newer, name, session, r2),
    ensures
        !collection_names(new.collections).contains(name),
        forall|other: Seq<char>| other != name ==> #[trigger] docs_of(new, other) == docs_of(old, other),
        forall|other: Seq<char>| #[trigger] collection_names(new.collections).contains(other) <==> (
            collection_names(old.collections).contains(other) && other != name),
        newer == new,
        r2 is Ok,
{
    lemma_find_col(old.collections, name);
    assert forall|other: Seq<char>| other != name implies #[trigger] docs_of(new, other) == docs_of(old, other) by {
        match find_col(old.collections, name) {
            None => {},
            Some(i) => {
                lemma_find_col_remove(old.collections, i, other);
            },
        }
    }
    assert forall|other: Seq<char>| #[trigger] collection_names(new.collections).contains(other) <==> (
        collection_names(old.collections).contains(other) && other != name) by {
        match find_col(old.collections, name) {
            None => {},
            Some(i) => {
                let cols = old.collections.remove(i);
                if collection_names(new.collections).contains(other) {
                    let j = choose|j: int| 0 <= j < cols.len() && collection_names(cols)[j] == other;
                    let k = if j < i { j } else { j + 1 };
                    assert(cols[j] == old.collections[k]);
                    assert(collection_names(old.collections)[k] == other);
                    assert(names_unique(old.collections));
                }
                if collection_names(old.collections).contains(other) && other != name {
                    let j = choose|j: int| 0 <= j < old.collections.len() && collection_names(old.collections)[j] == other;
                    assert(j != i);
                    let k = if j < i { j } else { j - 1 };
                    assert(cols[k] == old.collections[j]);
                    assert(collection_names(cols)[k] == other);
                }
            },
        }
    }
    match find_col(old.collections, name) {
        None => {
            assert(!collection_names(new.collections).contains(name)) by {
                if collection_names(new.collections).contains(name) {
                    let j = choose|j: int| 0 <= j < new.collections.len() && collection_names(new.collections)[j] == name;
                }
            }
        },
        Some(i) => {
            let cols = old.collections.remove(i);
            assert(new.collections == cols);
            assert(names_unique(old.collections));
            assert forall|j: int| 0 <= j < cols.len() implies #[trigger] cols[j].name != name by {
                if j < i {
                    assert(cols[j] == old.collections[j]);
                } else {
                    assert(cols[j] == old.collections[j + 1]);
                }
            }
            assert(!collection_names(new.collections).contains(name)) by {
                if collection_names(new.collections).contains(name) {
                    let j = choose|j: int| 0 <= j < new.collections.len() && collection_names(new.collections)[j] == name;
                }
            }
        },
    }
    lemma_find_col(new.collections, name);
    assert(find_col(new.collections, name) is None) by {
        if find_col(new.collections, name) is Some {
            let j = find_col(new.collections, name)->0;
            assert(collection_names(new.collections)[j] == name);
        }
    }
}

/// A collection can be created once: after a successful create the name is
/// listed, and creating it again is refused with nothing changed.
pub proof fn law_create_once(
    old: StoreModel,
    new: StoreModel,
    newer: StoreModel,
    name: Seq<char>,
    session: Option<Seq<u8>>,
    r2: Result<(), DbErr>,
)
    requires
        create_outcome(old, new, name, session, Ok(())),
        create_outcome(new, newer, name, session, r2),
    ensures
        collection_names(new.collections).contains(name),
        newer == new,
        r2 matches Err(DbErr::CollectionAlreadyExits(n)) && n@ == name,
{
    let k = old.collections.len() as int;
    assert(new.collections[k].name == name);
    assert(collection_names(new.collections)[k] == name);
    lemma_find_col(new.collections, name);
}

/// A rollback brings back the collections as they were when the transaction
/// was opened, whatever the operations in between changed in them.
pub proof fn law_rollback_restores(
    before: StoreModel,
    changed: Seq<CollectionModel>,
    after: StoreModel,
    ty: TransactionType,
)
    requires
        before.transaction is None,
        rollback_outcome(
            with_collections(
                StoreModel { transaction: Some((ty, before.collections)), ..before },
                changed,
            ),
            after,
            Ok(Reply::Null),
        ),
    ensures
        after == before,
{
}

/// A failed `insert_many` changes nothing: it is all or nothing.
pub proof fn law_insert_many_all_or_nothing(
    old: StoreModel,
    new: StoreModel,
    name: Seq<char>,
    ds: Seq<DocModel>,
    fresh: Seq<Seq<u8>>,
    session: Option<Seq<u8>>,
    f: crate::model::Failure,
)
    requires
        crate::store::insert_many_outcome(old, new, name, ds, fresh, session, Err(f)),
    ensures
        new == old,
{
}

/// `update_many` reports as modified exactly as many documents as finding
/// with the same filter gives.
pub proof fn law_update_counts_found(
    old: StoreModel,
    new: StoreModel,
    name: Seq<char>,
    f: DocModel,
    u: DocModel,
    session: Option<Seq<u8>>,
    res: crate::results::UpdateResult,
)
    requires
        crate::db::update_outcome(old, new, name, f, u, true, session, Ok(res)),
    ensures
        find_result(old, name, f, session) matches Ok(found) && found.len() == res.modified_count,
{
    lemma_find_col(old.collections, name);
}

/// After a commit there is nothing to roll back.
pub proof fn law_commit_then_rollback_refused(
    old: StoreModel,
    committed: StoreModel,
    after: StoreModel,
    r: Result<Reply, DbErr>,
)
    requires
        crate::db::commit_outcome(old, committed, Ok(Reply::Null)),
        rollback_outcome(committed, after, r),
    ensures
        after == committed,
        committed.collections == old.collections,
        r matches Err(e) && e is NoTransactionStarted,
{
}

/// In a database that keeps its invariant, no two documents of one
/// collection have equal `_id`s, and every document has one.
pub proof fn law_ids_unique(m: StoreModel, c: int, i: int, j: int)
    requires
        store_wf(m),
        0 <= c < m.collections.len(),
        0 <= i < m.collections[c].docs.len(),
        0 <= j < m.collections[c].docs.len(),
        i != j,
    ensures
        doc_id(m.collections[c].docs[i]) is Some,
        doc_id(m.collections[c].docs[i]) != doc_id(m.collections[c].docs[j]),
{
    assert(docs_keyed(m.collections[c].docs));
}

/// The documents as `insert_many` stores them.
pub open spec fn stored_docs(ds: Seq<DocModel>, fresh: Seq<Seq<u8>>) -> Seq<DocModel> {
    Seq::new(ds.len(), |i: int| with_id(ds[i], fresh[i]))
}

pub open spec fn ok_part(
    r: Result<(Seq<CollectionModel>, Seq<ValueModel>), crate::model::Failure>,
) -> (Seq<CollectionModel>, Seq<ValueModel>) {
    match r {
        Ok(p) => p,
        Err(_) => (Seq::empty(), Seq::empty()),
    }
}

proof fn lemma_with_id_has_id(d: DocModel, fresh: Seq<u8>)
    ensures
        doc_id(with_id(d, fresh)) is Some,
{
    if doc_id(d) is None {
        let w = with_id(d, fresh);
        assert(w[0] == (id_key(), ValueModel::ObjectId(fresh)));
        assert(crate::value::key_index_from(w, id_key(), 0) == Some(0int));
    }
}

/// The collections differ from `base` only at `k`, whose name is `name`.
proof fn lemma_find_same_names(base: Seq<CollectionModel>, cs: Seq<CollectionModel>, name: Seq<char>, k: int)
    requires
        find_col(base, name) == Some(k),
        cs.len() == base.len(),
        forall|j: int| 0 <= j < base.len() && j != k ==> cs[j] == base[j],
        cs[k].name == name,
    ensures
        find_col(cs, name) == Some(k),
{
    lemma_find_col(base, name);
    assert forall|m: int| 0 <= m < k implies cs[m].name != name by {
        assert(cs[m] == base[m]);
    }
    lemma_find_col_at(cs, name, k);
}

/// What a successful `insert_all` leaves: the stored documents appended to
/// the collection, their `_id`s returned in order, and each returned `_id`
/// carried by exactly one document there.
proof fn lemma_insert_all_ok(cols: Seq<CollectionModel>, name: Seq<char>, ds: Seq<DocModel>, fresh: Seq<Seq<u8>>)
    requires
        insert_all(cols, name, ds, fresh) is Ok,
    ensures
        ({
            let base = auto_create(cols, name);
            let k = find_col(base, name)->0;
            let p = ok_part(insert_all(cols, name, ds, fresh));
            &&& find_col(base, name) is Some
            &&& 0 <= k < base.len()
            &&& p.0.len() == base.len()
            &&& forall|j: int| 0 <= j < base.len() && j != k ==> p.0[j] == base[j]
            &&& p.0[k].name == name
            &&& p.0[k].docs == base[k].docs + stored_docs(ds, fresh)
            &&& p.1.len() == ds.len()
            &&& forall|i: int| 0 <= i < ds.len() ==> doc_id(#[trigger] stored_docs(ds, fresh)[i]) == Some(p.1[i])
            &&& forall|i: int, j: int|
                0 <= i < ds.len() && 0 <= j < p.0[k].docs.len() && (#[trigger] doc_id(p.0[k].docs[j])) == Some(
                    #[trigger] p.1[i],
                ) ==> j == base[k].docs.len() + i
        }),
    decreases ds.len(),
{
    let base = auto_create(cols, name);
    lemma_auto_create(cols, name);
    lemma_find_col(base, name);
    let k = find_col(base, name)->0;
    let p = ok_part(insert_all(cols, name, ds, fresh));
    if ds.len() == 0 {
        assert(stored_docs(ds, fresh) =~= Seq::<DocModel>::empty());
        assert(base[k].docs + stored_docs(ds, fresh) =~= base[k].docs);
    } else {
        let dl = ds.drop_last();
        lemma_insert_all_ok(cols, name, dl, fresh);
        let q = ok_part(insert_all(cols, name, dl, fresh));
        let d = with_id(ds.last(), fresh[ds.len() - 1]);
        lemma_with_id_has_id(ds.last(), fresh[ds.len() - 1]);
        lemma_find_same_names(base, q.0, name, k);
        lemma_auto_create(q.0, name);
        assert(auto_create(q.0, name) == q.0);
        let old_docs = q.0[k].docs;
        assert(insert_failure(old_docs, d) is None);
        assert(p.0 == q.0.update(k, crate::model::with_docs(q.0[k], old_docs.push(d))));
        assert(p.1 == q.1.push(doc_id(d)->0));
        let sd = stored_docs(ds, fresh);
        let sq = stored_docs(dl, fresh);
        assert(sd =~= sq.push(d));
        assert(p.0[k].docs =~= base[k].docs + sd);
        let l0 = base[k].docs.len();
        assert forall|i: int| 0 <= i < ds.len() implies doc_id(#[trigger] sd[i]) == Some(p.1[i]) by {
            if i < dl.len() {
                assert(sd[i] == sq[i]);
                assert(p.1[i] == q.1[i]);
            }
        }
        assert forall|i: int, j: int|
            0 <= i < ds.len() && 0 <= j < p.0[k].docs.len() && (#[trigger] doc_id(p.0[k].docs[j])) == Some(
                #[trigger] p.1[i],
            ) implies j == l0 + i by {
            let nd = p.0[k].docs;
            if i < dl.len() {
                assert(p.1[i] == q.1[i]);
                if j < old_docs.len() {
                    assert(nd[j] == old_docs[j]);
                } else {
                    assert(nd[j] == d);
                    assert(old_docs[l0 + i] == sq[i]);
                    assert(doc_id(old_docs[l0 + i]) == doc_id(d));
                }
            } else {
                if j < old_docs.len() {
                    assert(nd[j] == old_docs[j]);
                    assert(doc_id(old_docs[j]) == doc_id(d));
                }
            }
        }
    }
}

/// Exactly one document, at `j`, is selected: the selection is that document.
proof fn lemma_select_single(docs: Seq<DocModel>, f: DocModel, j: int)
    requires
        0 <= j < docs.len(),
        doc_matches(docs[j], f),
        forall|m: int| 0 <= m < docs.len() && m != j ==> !doc_matches(#[trigger] docs[m], f),
    ensures
        select(docs, f) == seq![docs[j]],
    decreases docs.len(),
{
    let dl = docs.drop_last();
    if j == docs.len() - 1 {
        assert forall|m: int| 0 <= m < dl.len() implies !doc_matches(#[trigger] dl[m], f) by {
            assert(dl[m] == docs[m]);
        }
        lemma_select_none(dl, f);
        assert(select(docs, f) =~= seq![docs[j]]);
    } else {
        assert forall|m: int| 0 <= m < dl.len() && m != j implies !doc_matches(#[trigger] dl[m], f) by {
            assert(dl[m] == docs[m]);
        }
        assert(dl[j] == docs[j]);
        lemma_select_single(dl, f, j);
        assert(!doc_matches(docs[docs.len() - 1], f));
    }
}

/// After a successful `insert_many` of `n` documents, the returned `_id`s
/// are `n`, pairwise distinct, each finds exactly the document stored with it,
/// and the collection holds `n` documents more.
pub proof fn law_insert_many_ids(
    old: StoreModel,
    new: StoreModel,
    name: Seq<char>,
    ds: Seq<DocModel>,
    fresh: Seq<Seq<u8>>,
    session: Option<Seq<u8>>,
    ids: Seq<ValueModel>,
)
    requires
        crate::store::insert_many_outcome(old, new, name, ds, fresh, session, Ok(ids)),
    ensures
        ids.len() == ds.len(),
        forall|i: int, j: int| 0 <= i < j < ids.len() ==> ids[i] != ids[j],
        docs_of(new, name).len() == docs_of(old, name).len() + ds.len(),
        forall|i: int|
            0 <= i < ids.len() ==> find_result(new, name, id_filter(#[trigger] ids[i]), session) == Ok::<
                Seq<DocModel>,
                crate::model::Failure,
            >(seq![with_id(ds[i], fresh[i])]),
{
    let cols = old.collections;
    lemma_insert_all_ok(cols, name, ds, fresh);
    let base = auto_create(cols, name);
    let k = find_col(base, name)->0;
    let p = ok_part(insert_all(cols, name, ds, fresh));
    assert(new.collections == p.0 && ids == p.1);
    lemma_auto_create(cols, name);
    lemma_find_col(cols, name);
    lemma_find_same_names(base, p.0, name, k);
    if find_col(cols, name) is None {
        assert(base[k] == crate::model::empty_collection(name));
    }
    assert(docs_of(old, name) == base[k].docs);
    let nd = p.0[k].docs;
    assert(docs_of(new, name) == nd);
    let l0 = base[k].docs.len();
    let sd = stored_docs(ds, fresh);
    assert forall|i: int, j: int| 0 <= i < j < ids.len() implies ids[i] != ids[j] by {
        assert(nd[l0 + j] == sd[j]);
        assert(doc_id(sd[j]) == Some(ids[j]));
        if ids[i] == ids[j] {
            assert(doc_id(nd[l0 + j]) == Some(p.1[i]));
        }
    }
    assert forall|i: int|
        0 <= i < ids.len() implies find_result(new, name, id_filter(#[trigger] ids[i]), session) == Ok::<
            Seq<DocModel>,
            crate::model::Failure,
        >(seq![with_id(ds[i], fresh[i])]) by {
        let f = id_filter(ids[i]);
        lemma_id_filter(ids[i], nd[l0 + i]);
        assert(nd[l0 + i] == sd[i]);
        assert forall|m: int| 0 <= m < nd.len() && m != l0 + i implies !doc_matches(#[trigger] nd[m], f) by {
            lemma_id_filter(ids[i], nd[m]);
            assert(p.1[i] == ids[i]);
        }
        lemma_select_single(nd, f, l0 + i);
    }
}

} // verus!
