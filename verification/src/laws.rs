//! Collection-level laws of the delete operation, stated over the same
//! view and predicate that the contract of `delete_entry` uses.
use vstd::prelude::*;
use crate::entry::{EntryView, has_id};
use crate::store::others;

verus! {

/// A filter that keeps every element changes nothing.
proof fn lemma_filter_all_kept(vs: Seq<EntryView>, pred: spec_fn(EntryView) -> bool)
    requires
        forall|i: int| 0 <= i < vs.len() ==> pred(#[trigger] vs[i]),
    ensures
        vs.filter(pred) == vs,
    decreases vs.len(),
{
    reveal(Seq::filter);
    if vs.len() > 0 {
        let d = vs.drop_last();
        assert(forall|i: int| 0 <= i < d.len() ==> #[trigger] d[i] == vs[i]);
        lemma_filter_all_kept(d, pred);
        assert(pred(vs.last()));
        assert(vs.filter(pred) == d.push(vs.last()));
        assert(d.push(vs.last()) =~= vs);
    }
}

/// Deleting an identifier that no entry carries returns the collection
/// unchanged.
pub proof fn lemma_delete_missing_id(vs: Seq<EntryView>, id: Seq<char>)
    requires
        !has_id(vs, id),
    ensures
        vs.filter(others(id)) == vs,
{
    assert forall|i: int| 0 <= i < vs.len() implies others(id)(#[trigger] vs[i]) by {
        assert(vs[i].id != id);
    }
    lemma_filter_all_kept(vs, others(id));
}

/// Deleting the same identifier twice gives the same collection as
/// deleting it once.
pub proof fn lemma_delete_idempotent(vs: Seq<EntryView>, id: Seq<char>)
    ensures
        vs.filter(others(id)).filter(others(id)) == vs.filter(others(id)),
{
    let f = vs.filter(others(id));
    assert forall|i: int| 0 <= i < f.len() implies others(id)(#[trigger] f[i]) by {
        vs.lemma_filter_pred(others(id), i);
    }
    lemma_filter_all_kept(f, others(id));
}

} // verus!
