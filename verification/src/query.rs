//! Filters: which documents a query selects.
//!
//! A filter is a document. Each of its fields is a condition, and a document
//! is selected when every condition holds. A field `"$and"` or `"$or"` takes a
//! non-empty array of filters, of which all, or at least one, must select the
//! document; any other key that starts with `$` is refused; a field of any other
//! name holds when the document's field of that name equals the given value.
use vstd::prelude::*;
use crate::value::{
    doc_get, key_is, lemma_fields_view_index, lemma_fields_view_len, lemma_values_view_index,
    lemma_values_view_len, values_view, values_equal, DocModel, Document, Value, ValueModel,
};
use crate::error::DbErr;

verus! {

pub open spec fn and_key() -> Seq<char> {
    "$and"@
}

pub open spec fn or_key() -> Seq<char> {
    "$or"@
}

/// A key that names an operator.
pub open spec fn is_operator(k: Seq<char>) -> bool {
    k.len() > 0 && k[0] == '$'
}

/// The filter is one that the database accepts.
pub open spec fn filter_valid(f: DocModel) -> bool
    decreases f, 0nat,
{
    if f.len() == 0 {
        true
    } else {
        proof {
            assert(decreases_to!(f => f[f.len() - 1]));
        }
        filter_valid(f.drop_last()) && condition_valid(f.last().0, f.last().1)
    }
}

/// One condition of a filter is one that the database accepts.
pub open spec fn condition_valid(k: Seq<char>, v: ValueModel) -> bool
    decreases v, 0nat,
{
    if k == and_key() || k == or_key() {
        match v {
            ValueModel::Array(items) => items.len() > 0 && subfilters_valid(items),
            _ => false,
        }
    } else {
        !is_operator(k)
    }
}

/// Every item is a document that is a valid filter.
pub open spec fn subfilters_valid(items: Seq<ValueModel>) -> bool
    decreases items, 0nat,
{
    if items.len() == 0 {
        true
    } else {
        proof {
            assert(decreases_to!(items => items[items.len() - 1]));
        }
        subfilters_valid(items.drop_last()) && match items.last() {
            ValueModel::Document(d) => filter_valid(d),
            _ => false,
        }
    }
}

/// The filter selects the document.
pub open spec fn doc_matches(doc: DocModel, f: DocModel) -> bool
    decreases f, 0nat,
{
    if f.len() == 0 {
        true
    } else {
        proof {
            assert(decreases_to!(f => f[f.len() - 1]));
        }
        doc_matches(doc, f.drop_last()) && condition_matches(doc, f.last().0, f.last().1)
    }
}

/// One condition holds of the document.
pub open spec fn condition_matches(doc: DocModel, k: Seq<char>, v: ValueModel) -> bool
    decreases v, 0nat,
{
    if k == and_key() {
        match v {
            ValueModel::Array(items) => all_match(doc, items),
            _ => false,
        }
    } else if k == or_key() {
        match v {
            ValueModel::Array(items) => any_match(doc, items),
            _ => false,
        }
    } else {
        doc_get(doc, k) == Some(v)
    }
}

/// Every item selects the document.
pub open spec fn all_match(doc: DocModel, items: Seq<ValueModel>) -> bool
    decreases items, 0nat,
{
    if items.len() == 0 {
        true
    } else {
        proof {
            assert(decreases_to!(items => items[items.len() - 1]));
        }
        all_match(doc, items.drop_last()) && match items.last() {
            ValueModel::Document(d) => doc_matches(doc, d),
            _ => false,
        }
    }
}

/// Some item selects the document.
pub open spec fn any_match(doc: DocModel, items: Seq<ValueModel>) -> bool
    decreases items, 0nat,
{
    if items.len() == 0 {
        false
    } else {
        proof {
            assert(decreases_to!(items => items[items.len() - 1]));
        }
        any_match(doc, items.drop_last()) || match items.last() {
            ValueModel::Document(d) => doc_matches(doc, d),
            _ => false,
        }
    }
}

/// Whether a key names an operator.
pub fn key_is_operator(k: &String) -> (r: bool)
    ensures
        r == is_operator(k@),
{
    let s: &str = k.as_str();
    if s.unicode_len() == 0 {
        false
    } else {
        s.get_char(0) == '$'
    }
}

/// Accepts the filter, or refuses it with `InvalidQuery`.
pub fn check_filter(f: &Document) -> (r: Result<(), DbErr>)
    ensures
        r is Ok <==> filter_valid(f@),
        r matches Err(e) ==> e is InvalidQuery,
    decreases f,
{
    let n = f.fields.len();
    proof {
        lemma_fields_view_len(f.fields@);
    }
    let mut i: usize = 0;
    while i < n
        invariant
            i <= n,
            n == f.fields.len(),
            f@.len() == n,
            filter_valid(f@.take(i as int)),
        decreases n - i,
    {
        proof {
            vstd::std_specs::vec::axiom_vec_index_decreases(f.fields, i as int);
            lemma_fields_view_index(f.fields@, i as int);
            assert(f@.take(i + 1).drop_last() =~= f@.take(i as int));
        }
        let ok = check_condition(&f.fields[i].0, &f.fields[i].1);
        if !ok {
            proof {
                lemma_filter_valid_prefix(f@, i + 1, n as int);
                assert(f@.take(n as int) =~= f@);
            }
            return Err(DbErr::InvalidQuery);
        }
        i = i + 1;
    }
    assert(f@.take(n as int) =~= f@);
    Ok(())
}

proof fn lemma_filter_valid_prefix(f: DocModel, i: int, j: int)
    requires
        0 <= i <= j <= f.len(),
    ensures
        filter_valid(f.take(j)) ==> filter_valid(f.take(i)),
    decreases j - i,
{
    if i < j {
        assert(f.take(j).drop_last() =~= f.take(j - 1));
        lemma_filter_valid_prefix(f, i, j - 1);
    }
}

fn check_condition(k: &String, v: &Value) -> (r: bool)
    ensures
        r == condition_valid(k@, v@),
    decreases v,
{
    if key_is(k, "$and") || key_is(k, "$or") {
        match v {
            Value::Array(items) => {
                proof {
                    lemma_values_view_len(items@);
                }
                items.len() > 0 && check_subfilters(items)
            },
            _ => false,
        }
    } else {
        !key_is_operator(k)
    }
}

fn check_subfilters(items: &Vec<Value>) -> (r: bool)
    ensures
        r == subfilters_valid(values_view(items@)),
    decreases items,
{
    let n = items.len();
    proof {
        lemma_values_view_len(items@);
    }
    let ghost s = values_view(items@);
    let mut i: usize = 0;
    while i < n
        invariant
            i <= n,
            n == items.len(),
            s == values_view(items@),
            s.len() == n,
            subfilters_valid(s.take(i as int)),
        decreases n - i,
    {
        proof {
            vstd::std_specs::vec::axiom_vec_index_decreases(*items, i as int);
            lemma_values_view_index(items@, i as int);
            assert(s.take(i + 1).drop_last() =~= s.take(i as int));
        }
        let ok = match &items[i] {
            Value::Document(d) => check_filter(d).is_ok(),
            _ => false,
        };
        if !ok {
            proof {
                lemma_subfilters_valid_prefix(s, i + 1, n as int);
                assert(s.take(n as int) =~= s);
            }
            return false;
        }
        i = i + 1;
    }
    assert(s.take(n as int) =~= s);
    true
}

proof fn lemma_subfilters_valid_prefix(s: Seq<ValueModel>, i: int, j: int)
    requires
        0 <= i <= j <= s.len(),
    ensures
        subfilters_valid(s.take(j)) ==> subfilters_valid(s.take(i)),
    decreases j - i,
{
    if i < j {
        assert(s.take(j).drop_last() =~= s.take(j - 1));
        lemma_subfilters_valid_prefix(s, i, j - 1);
    }
}

/// Whether the filter selects the document.
pub fn doc_matches_filter(doc: &Document, f: &Document) -> (r: bool)
    requires
        filter_valid(f@),
    ensures
        r == doc_matches(doc@, f@),
    decreases f,
{
    let n = f.fields.len();
    proof {
        lemma_fields_view_len(f.fields@);
    }
    let mut i: usize = 0;
    while i < n
        invariant
            i <= n,
            n == f.fields.len(),
            f@.len() == n,
            filter_valid(f@),
            doc_matches(doc@, f@.take(i as int)),
        decreases n - i,
    {
        proof {
            vstd::std_specs::vec::axiom_vec_index_decreases(f.fields, i as int);
            lemma_fields_view_index(f.fields@, i as int);
            assert(f@.take(i + 1).drop_last() =~= f@.take(i as int));
            assert(f@.take(n as int) =~= f@);
            lemma_filter_valid_prefix(f@, i + 1, n as int);
        }
        let ok = condition_holds(doc, &f.fields[i].0, &f.fields[i].1);
        if !ok {
            proof {
                lemma_doc_matches_prefix(doc@, f@, i + 1, n as int);
            }
            return false;
        }
        i = i + 1;
    }
    assert(f@.take(n as int) =~= f@);
    true
}

proof fn lemma_doc_matches_prefix(doc: DocModel, f: DocModel, i: int, j: int)
    requires
        0 <= i <= j <= f.len(),
    ensures
        doc_matches(doc, f.take(j)) ==> doc_matches(doc, f.take(i)),
        j == f.len() ==> (doc_matches(doc, f) ==> doc_matches(doc, f.take(i))),
    decreases j - i,
{
    assert(f.take(f.len() as int) =~= f);
    if i < j {
        assert(f.take(j).drop_last() =~= f.take(j - 1));
        lemma_doc_matches_prefix(doc, f, i, j - 1);
    }
}

fn condition_holds(doc: &Document, k: &String, v: &Value) -> (r: bool)
    requires
        condition_valid(k@, v@),
    ensures
        r == condition_matches(doc@, k@, v@),
    decreases v,
{
    if key_is(k, "$and") {
        match v {
            Value::Array(items) => all_items_match(doc, items),
            _ => false,
        }
    } else if key_is(k, "$or") {
        match v {
            Value::Array(items) => any_item_matches(doc, items),
            _ => false,
        }
    } else {
        match doc.get(k.as_str()) {
            Some(x) => values_equal(x, v),
            None => false,
        }
    }
}

fn all_items_match(doc: &Document, items: &Vec<Value>) -> (r: bool)
    requires
        subfilters_valid(values_view(items@)),
    ensures
        r == all_match(doc@, values_view(items@)),
    decreases items,
{
    let n = items.len();
    proof {
        lemma_values_view_len(items@);
    }
    let ghost s = values_view(items@);
    let mut i: usize = 0;
    while i < n
        invariant
            i <= n,
            n == items.len(),
            s == values_view(items@),
            s.len() == n,
            subfilters_valid(s),
            all_match(doc@, s.take(i as int)),
        decreases n - i,
    {
        proof {
            vstd::std_specs::vec::axiom_vec_index_decreases(*items, i as int);
            lemma_values_view_index(items@, i as int);
            assert(s.take(i + 1).drop_last() =~= s.take(i as int));
            assert(s.take(n as int) =~= s);
            lemma_subfilters_valid_prefix(s, i + 1, n as int);
        }
        let ok = match &items[i] {
            Value::Document(d) => doc_matches_filter(doc, d),
            _ => false,
        };
        if !ok {
            proof {
                lemma_all_match_prefix(doc@, s, i + 1, n as int);
            }
            return false;
        }
        i = i + 1;
    }
    assert(s.take(n as int) =~= s);
    true
}

proof fn lemma_all_match_prefix(doc: DocModel, s: Seq<ValueModel>, i: int, j: int)
    requires
        0 <= i <= j <= s.len(),
    ensures
        all_match(doc, s.take(j)) ==> all_match(doc, s.take(i)),
        j == s.len() ==> (all_match(doc, s) ==> all_match(doc, s.take(i))),
    decreases j - i,
{
    assert(s.take(s.len() as int) =~= s);
    if i < j {
        assert(s.take(j).drop_last() =~= s.take(j - 1));
        lemma_all_match_prefix(doc, s, i, j - 1);
    }
}

fn any_item_matches(doc: &Document, items: &Vec<Value>) -> (r: bool)
    requires
        subfilters_valid(values_view(items@)),
    ensures
        r == any_match(doc@, values_view(items@)),
    decreases items,
{
    let n = items.len();
    proof {
        lemma_values_view_len(items@);
    }
    let ghost s = values_view(items@);
    let mut i: usize = 0;
    while i < n
        invariant
            i <= n,
            n == items.len(),
            s == values_view(items@),
            s.len() == n,
            subfilters_valid(s),
            !any_match(doc@, s.take(i as int)),
        decreases n - i,
    {
        proof {
            vstd::std_specs::vec::axiom_vec_index_decreases(*items, i as int);
            lemma_values_view_index(items@, i as int);
            assert(s.take(i + 1).drop_last() =~= s.take(i as int));
            assert(s.take(n as int) =~= s);
            lemma_subfilters_valid_prefix(s, i + 1, n as int);
        }
        let ok = match &items[i] {
            Value::Document(d) => doc_matches_filter(doc, d),
            _ => false,
        };
        if ok {
            proof {
                lemma_any_match_prefix(doc@, s, i + 1, n as int);
            }
            return true;
        }
        i = i + 1;
    }
    assert(s.take(n as int) =~= s);
    false
}

proof fn lemma_any_match_prefix(doc: DocModel, s: Seq<ValueModel>, i: int, j: int)
    requires
        0 <= i <= j <= s.len(),
    ensures
        any_match(doc, s.take(i)) ==> any_match(doc, s.take(j)),
        j == s.len() ==> (any_match(doc, s.take(i)) ==> any_match(doc, s)),
    decreases j - i,
{
    assert(s.take(s.len() as int) =~= s);
    if i < j {
        assert(s.take(j).drop_last() =~= s.take(j - 1));
        lemma_any_match_prefix(doc, s, i, j - 1);
    }
}

} // verus!
