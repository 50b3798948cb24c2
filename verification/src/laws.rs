use vstd::prelude::*;

use crate::entity::Entity;
use crate::sparse_set::{index_in, insert_all, EntitySparseSet};

verus! {

/// Round trip: the view after an insertion of `v` for `e` — which
/// [`EntitySparseSet::insert`] ensures is `m.insert(e.index(), v)` — holds
/// `e`'s index, and maps it to the value inserted most recently, so a
/// subsequent lookup returns exactly `v`.
pub proof fn lemma_round_trip<V>(m: Map<u32, V>, e: Entity, v: V)
    ensures
        m.insert(e.index(), v).dom().contains(e.index()),
        m.insert(e.index(), v)[e.index()] == v,
{
}

/// Idempotent overwrite: inserting twice for the same identifier leaves only
/// the second value, and after the first insertion the identifier is already
/// contained, so the second insertion keeps the dense length unchanged (the
/// dense-length clause of [`EntitySparseSet::insert`] takes its overwrite
/// branch).
pub proof fn lemma_idempotent_overwrite<V>(m: Map<u32, V>, e: Entity, v1: V, v2: V)
    ensures
        m.insert(e.index(), v1).insert(e.index(), v2) == m.insert(e.index(), v2),
        m.insert(e.index(), v1).dom().contains(e.index()),
{
    assert(m.insert(e.index(), v1).insert(e.index(), v2) =~= m.insert(e.index(), v2));
}

/// Clear resets fully: a container whose view is the empty map — as
/// [`EntitySparseSet::clear`] ensures, with both lengths zero exactly as
/// [`EntitySparseSet::new`] ensures — contains no identifier at all, so
/// every previously-inserted one is gone and each operation's contract
/// coincides with its contract on a freshly constructed container.
pub proof fn lemma_clear_resets<V>(s: EntitySparseSet<V>)
    requires
        s@ == Map::<u32, V>::empty(),
    ensures
        forall|j: u32| !s@.dom().contains(j),
{
}

/// Bulk equivalence: for pairwise-distinct identifier indices, the in-order
/// fold of single insertions — which is what
/// [`EntitySparseSet::insert_from_slice_unique`] ensures its result equals —
/// maps each given identifier-index to its matching value and leaves every
/// other identifier-index exactly as in `m`, so `get` and `contains` observe
/// the same mapping as after sequential insertion of each pair in order.
pub proof fn lemma_insert_all_props<V>(m: Map<u32, V>, es: Seq<Entity>, vs: Seq<V>)
    requires
        es.len() == vs.len(),
        forall|k: int, l: int| 0 <= k < l < es.len() ==> es[k].index() != es[l].index(),
    ensures
        forall|k: int|
            0 <= k < es.len() ==> insert_all(m, es, vs).dom().contains(#[trigger] es[k].index()),
        forall|k: int| 0 <= k < es.len() ==> insert_all(m, es, vs)[#[trigger] es[k].index()] == vs[k],
        forall|j: u32|
            !index_in(es, j) ==> insert_all(m, es, vs).dom().contains(j) == m.dom().contains(j),
        forall|j: u32| !index_in(es, j) && m.dom().contains(j) ==> insert_all(m, es, vs)[j] == m[j],
    decreases es.len(),
{
    if es.len() > 0 {
        let es0 = es.drop_last();
        let vs0 = vs.drop_last();
        let last = es.last().index();
        lemma_insert_all_props(m, es0, vs0);
        assert forall|j: u32| !index_in(es, j) implies !index_in(es0, j) && j != last by {
            if index_in(es0, j) {
                let l = choose|l: int| 0 <= l < es0.len() && es0[l].index() == j;
                assert(es[l].index() == j);
            }
            assert(es[es.len() - 1].index() == last);
        }
        assert forall|k: int| 0 <= k < es.len() - 1 implies es[k].index() != last by {
            assert(es[k].index() != es[es.len() - 1].index());
        }
        assert forall|k: int| 0 <= k < es.len() implies insert_all(m, es, vs).dom().contains(
            #[trigger] es[k].index(),
        ) && insert_all(m, es, vs)[es[k].index()] == vs[k] by {
            if k < es.len() - 1 {
                assert(es0[k] == es[k]);
                assert(vs0[k] == vs[k]);
                assert(insert_all(m, es0, vs0)[es0[k].index()] == vs0[k]);
            } else {
                assert(es[k].index() == last);
            }
        }
    }
}

} // verus!
