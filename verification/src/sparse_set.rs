use vstd::prelude::*;

use crate::dense_index::DenseIndex;
use crate::entity::Entity;

verus! {

/// The map obtained from `m` by inserting, in order, the value `vs[k]` for
/// the identifier-index `es[k].index()`: exactly the mapping produced by a
/// sequence of single insertions, each one taken on the result of the
/// previous.
pub open spec fn insert_all<V>(m: Map<u32, V>, es: Seq<Entity>, vs: Seq<V>) -> Map<u32, V>
    decreases es.len(),
{
    if es.len() == 0 {
        m
    } else {
        insert_all(m, es.drop_last(), vs.drop_last()).insert(es.last().index(), vs.last())
    }
}

/// Whether some entity in `es` carries the identifier-index `j`.
pub open spec fn index_in(es: Seq<Entity>, j: u32) -> bool {
    exists|l: int| 0 <= l < es.len() && es[l].index() == j
}

/// A sparse data structure of `V`, keyed by entity indices.
///
/// `sparse` maps an identifier's raw index to an optional position into
/// `dense`, which holds the stored values contiguously. The sparse array
/// grows on demand (filled with "absent" slots) and never shrinks except on
/// a full [`EntitySparseSet::clear`]; there is no per-entry removal.
pub struct EntitySparseSet<V> {
    dense: Vec<V>,
    sparse: Vec<Option<DenseIndex>>,
}

impl<V> EntitySparseSet<V> {
    /// Whether identifier-index `i` has a present sparse slot.
    pub closed spec fn has_slot(self, i: u32) -> bool {
        i < self.sparse@.len() && self.sparse@[i as int] is Some
    }

    /// The dense position stored in the sparse slot of identifier-index `i`.
    pub closed spec fn slot_pos(self, i: u32) -> int {
        self.sparse@[i as int].unwrap().pos() as int
    }

    /// Number of values stored: the length of the dense array.
    pub closed spec fn dense_len(self) -> nat {
        self.dense@.len()
    }

    /// Length of the sparse array: one slot for every identifier-index at or
    /// below the largest ever inserted since the last clear.
    pub closed spec fn sparse_len(self) -> nat {
        self.sparse@.len()
    }

    /// Well-formedness: every present sparse slot stores a dense position in
    /// bounds, and no two distinct slots share a dense position. Mutation
    /// establishes this once; lookups rely on it instead of re-checking.
    pub closed spec fn wf(self) -> bool {
        &&& (forall|i: u32| #[trigger] self.has_slot(i) ==> self.slot_pos(i) < self.dense@.len())
        &&& (forall|i: u32, j: u32|
            #![trigger self.slot_pos(i), self.slot_pos(j)]
            self.has_slot(i) && self.has_slot(j) && i != j ==> self.slot_pos(i) != self.slot_pos(
                j,
            ))
    }

    /// The abstract view: the map from identifier-index to stored value.
    pub closed spec fn as_map(self) -> Map<u32, V> {
        Map::new(|i: u32| self.has_slot(i), |i: u32| self.dense@[self.slot_pos(i)])
    }

    /// Creates an empty container: zero-length sparse and dense arrays.
    pub fn new() -> (s: Self)
        ensures
            s.wf(),
            s@ == Map::<u32, V>::empty(),
            s.dense_len() == 0,
            s.sparse_len() == 0,
    {
        let s = EntitySparseSet::<V> { dense: Vec::new(), sparse: Vec::new() };
        proof {
            assert(s.as_map() =~= Map::<u32, V>::empty());
        }
        s
    }

    /// Returns `true` if the collection contains a value for `entity`.
    ///
    /// Out-of-bounds or absent sparse slots both mean "not contained"; no
    /// precondition is placed on the identifier.
    pub fn contains(&self, entity: Entity) -> (r: bool)
        ensures
            r == self@.dom().contains(entity.index()),
    {
        let i: usize = entity.index() as usize;
        i < self.sparse.len() && self.sparse[i].is_some()
    }

    /// Number of values currently stored.
    pub fn len(&self) -> (n: usize)
        ensures
            n == self.dense_len(),
    {
        self.dense.len()
    }

    /// Removes all of the values stored within. Both arrays go back to zero
    /// length; this succeeds unconditionally.
    pub fn clear(&mut self)
        ensures
            final(self).wf(),
            final(self)@ == Map::<u32, V>::empty(),
            final(self).dense_len() == 0,
            final(self).sparse_len() == 0,
    {
        self.sparse.clear();
        self.dense.clear();
        proof {
            assert(self.as_map() =~= Map::<u32, V>::empty());
        }
    }

    /// Returns a reference to the value for `entity`.
    ///
    /// Returns `None` if the identifier's index is beyond the current sparse
    /// bounds or its sparse slot is absent. A present slot's stored dense
    /// position is always in bounds — the well-formedness invariant upheld by
    /// every mutation — so the read needs no further check.
    pub fn get(&self, entity: Entity) -> (r: Option<&V>)
        requires
            self.wf(),
        ensures
            r is Some <==> self@.dom().contains(entity.index()),
            r matches Some(v) ==> self@[entity.index()] == *v,
    {
        let i: usize = entity.index() as usize;
        if i < self.sparse.len() {
            match self.sparse[i] {
                Some(d) => {
                    let pos: usize = d.get() as usize;
                    proof {
                        assert(self.has_slot(entity.index()));
                        assert(pos == self.slot_pos(entity.index()));
                    }
                    Some(&self.dense[pos])
                },
                None => None,
            }
        } else {
            None
        }
    }

    /// Inserts the `entity` key and `value` pair into this sparse set.
    ///
    /// An identifier that is already present has its dense entry overwritten
    /// in place, leaving the dense length unchanged; a fresh identifier has
    /// `value` appended to the dense array and its position recorded in the
    /// sparse slot, growing the sparse array with absent slots if the index
    /// is beyond its current bounds. The dense length must stay below the
    /// reserved sentinel value, and the grown sparse length must stay
    /// representable; both are hard limits of the representation.
    pub fn insert(&mut self, entity: Entity, value: V)
        requires
            old(self).wf(),
            old(self)@.dom().contains(entity.index()) || old(self).dense_len() < u32::MAX,
            entity.index() >= old(self).sparse_len() ==> entity.index() < usize::MAX,
        ensures
            final(self).wf(),
            final(self)@ == old(self)@.insert(entity.index(), value),
            final(self).dense_len() == (if old(self)@.dom().contains(entity.index()) {
                old(self).dense_len() as int
            } else {
                old(self).dense_len() + 1 as int
            }),
            final(self).sparse_len() == (if entity.index() < old(self).sparse_len() {
                old(self).sparse_len() as int
            } else {
                entity.index() + 1 as int
            }),
    {
        let i: usize = entity.index() as usize;
        if i < self.sparse.len() {
            match self.sparse[i] {
                Some(d) => {
                    let pos: usize = d.get() as usize;
                    proof {
                        let ii = entity.index();
                        assert(old(self).has_slot(ii));
                        assert(pos == old(self).slot_pos(ii));
                    }
                    self.dense[pos] = value;
                    proof {
                        let ii = entity.index();
                        assert forall|j: u32| #[trigger] self.has_slot(j) implies self.slot_pos(j)
                            < self.dense@.len() by {
                            assert(old(self).has_slot(j));
                            assert(self.slot_pos(j) == old(self).slot_pos(j));
                        }
                        assert forall|j: u32, k: u32|
                            #![trigger self.slot_pos(j), self.slot_pos(k)]
                            self.has_slot(j) && self.has_slot(k) && j != k
                            implies self.slot_pos(j) != self.slot_pos(k) by {
                            assert(old(self).has_slot(j));
                            assert(old(self).has_slot(k));
                            assert(old(self).slot_pos(j) != old(self).slot_pos(k));
                        }
                        assert forall|j: u32|
                            j != ii && #[trigger] self.has_slot(j)
                            implies self.dense@[self.slot_pos(j)]
                            == old(self).dense@[old(self).slot_pos(j)] by {
                            assert(old(self).has_slot(j));
                            assert(old(self).slot_pos(j) != old(self).slot_pos(ii));
                        }
                        assert(self.as_map() =~= old(self).as_map().insert(ii, value));
                    }
                },
                None => {
                    self.record_fresh(i, value);
                },
            }
        } else {
            self.ensure_slot(i);
            self.record_fresh(i, value);
        }
    }

    /// Inserts every `entities`/`values` pair into this sparse set in one
    /// bulk operation: all values are appended to the dense array at once,
    /// and each identifier in order has the next sequential dense position
    /// recorded in its sparse slot.
    ///
    /// The caller guarantees equal lengths, pairwise-distinct identifier
    /// indices with no prior presence in the container — the bulk path skips
    /// the overwrite branch entirely — and that the resulting dense length
    /// stays strictly below the reserved sentinel value. Under those
    /// preconditions the resulting mapping is exactly the one sequential
    /// insertion of each pair in order would produce.
    pub fn insert_from_slice_unique(&mut self, entities: &[Entity], values: Vec<V>)
        requires
            old(self).wf(),
            entities@.len() == values@.len(),
            old(self).dense_len() + entities@.len() < u32::MAX,
            forall|k: int, l: int|
                0 <= k < l < entities@.len() ==> entities@[k].index() != entities@[l].index(),
            forall|k: int|
                0 <= k < entities@.len() ==> !old(self)@.dom().contains(
                    #[trigger] entities@[k].index(),
                ),
            forall|k: int| 0 <= k < entities@.len() ==> #[trigger] entities@[k].index() < usize::MAX,
        ensures
            final(self).wf(),
            final(self)@ == insert_all(old(self)@, entities@, values@),
            final(self).dense_len() == old(self).dense_len() + entities@.len(),
            final(self).sparse_len() >= old(self).sparse_len(),
    {
        let ghost es = entities@;
        let ghost vs = values@;
        let dst_len: usize = self.dense.len();
        let count: usize = entities.len();
        let mut vals: Vec<V> = values;
        self.dense.append(&mut vals);
        proof {
            assert forall|j: u32| #[trigger] self.has_slot(j) implies self.slot_pos(j)
                < self.dense@.len() by {
                assert(old(self).has_slot(j));
            }
            assert forall|j: u32, j2: u32|
                #![trigger self.slot_pos(j), self.slot_pos(j2)]
                self.has_slot(j) && self.has_slot(j2) && j != j2 implies self.slot_pos(j)
                != self.slot_pos(j2) by {
                assert(old(self).has_slot(j) && old(self).has_slot(j2));
                assert(old(self).slot_pos(j) != old(self).slot_pos(j2));
            }
        }
        let mut k: usize = 0;
        while k < count
            invariant
                0 <= k <= count,
                es.len() == count,
                vs.len() == count,
                es == entities@,
                dst_len == old(self).dense@.len(),
                dst_len + count < u32::MAX,
                old(self).wf(),
                forall|k2: int, l: int| 0 <= k2 < l < count ==> es[k2].index() != es[l].index(),
                forall|k2: int|
                    0 <= k2 < count ==> !old(self)@.dom().contains(#[trigger] es[k2].index()),
                forall|k2: int| 0 <= k2 < count ==> #[trigger] es[k2].index() < usize::MAX,
                self.wf(),
                self.sparse@.len() >= old(self).sparse@.len(),
                self.dense@ == old(self).dense@ + vs,
                forall|l: int|
                    0 <= l < k ==> self.has_slot(#[trigger] es[l].index()) && self.slot_pos(
                        es[l].index(),
                    ) == dst_len + l,
                forall|j: u32|
                    !index_in(es.take(k as int), j) ==> self.has_slot(j) == old(self).has_slot(j),
                forall|j: u32|
                    !index_in(es.take(k as int), j) && #[trigger] self.has_slot(j)
                        ==> self.slot_pos(j) == old(self).slot_pos(j),
            decreases count - k,
        {
            let e: Entity = entities[k];
            let i: usize = e.index() as usize;
            let ghost prev = *self;
            self.ensure_slot(i);
            let d: DenseIndex = DenseIndex::new((dst_len + k) as u32).unwrap();
            let ghost mid = *self;
            self.sparse[i] = Some(d);
            proof {
                let ii = e.index();
                assert(es[k as int] == e);
                assert(self.has_slot(ii) && self.slot_pos(ii) == dst_len + k);
                assert forall|j: u32| j != ii implies self.has_slot(j) == mid.has_slot(j) && (
                mid.has_slot(j) ==> self.slot_pos(j) == mid.slot_pos(j)) by {
                    assert(self.sparse@[j as int] == mid.sparse@[j as int] || j
                        >= mid.sparse@.len());
                }
                assert forall|j: u32| #[trigger] self.has_slot(j) implies self.slot_pos(j)
                    < self.dense@.len() by {
                    if j != ii {
                        assert(prev.has_slot(j));
                    }
                }
                assert forall|j: u32, j2: u32|
                    #![trigger self.slot_pos(j), self.slot_pos(j2)]
                    self.has_slot(j) && self.has_slot(j2) && j != j2 implies self.slot_pos(j)
                    != self.slot_pos(j2) by {
                    assert(j != ii || j2 != ii);
                    if j != ii && j2 != ii {
                        assert(prev.has_slot(j) && prev.has_slot(j2));
                        assert(prev.slot_pos(j) != prev.slot_pos(j2));
                    } else {
                        let other = if j == ii {
                            j2
                        } else {
                            j
                        };
                        assert(prev.has_slot(other));
                        if index_in(es.take(k as int), other) {
                            let l = choose|l: int|
                                0 <= l < k && es.take(k as int)[l].index() == other;
                            assert(es[l].index() == other);
                            assert(prev.slot_pos(other) == dst_len + l);
                            assert(es[l].index() != es[k as int].index());
                        } else {
                            assert(old(self).has_slot(other));
                            assert(prev.slot_pos(other) == old(self).slot_pos(other));
                            assert(old(self).slot_pos(other) < dst_len);
                        }
                    }
                }
                assert forall|l: int|
                    0 <= l < k + 1 implies self.has_slot(#[trigger] es[l].index()) && self.slot_pos(
                    es[l].index(),
                ) == dst_len + l by {
                    if l < k {
                        assert(prev.has_slot(es[l].index()));
                        assert(es[l].index() != ii);
                    }
                }
                assert forall|j: u32| !index_in(es.take(k + 1 as int), j) implies self.has_slot(j)
                    == old(self).has_slot(j) && (#[trigger] self.has_slot(j) ==> self.slot_pos(j)
                    == old(self).slot_pos(j)) by {
                    assert(es.take(k + 1 as int)[k as int].index() == ii);
                    if j == ii {
                        assert(index_in(es.take(k + 1 as int), j));
                    } else {
                        if index_in(es.take(k as int), j) {
                            let l = choose|l: int|
                                0 <= l < k && es.take(k as int)[l].index() == j;
                            assert(es.take(k + 1 as int)[l].index() == j);
                            assert(index_in(es.take(k + 1 as int), j));
                        }
                    }
                }
            }
            k = k + 1;
        }
        proof {
            assert(es.take(count as int) == es);
            crate::laws::lemma_insert_all_props(old(self)@, es, vs);
            let target = insert_all(old(self)@, es, vs);
            assert forall|j: u32| self.has_slot(j) == target.dom().contains(j) && (
            #[trigger] self.has_slot(j) ==> self.as_map()[j] == target[j]) by {
                if index_in(es, j) {
                    let l = choose|l: int| 0 <= l < es.len() && es[l].index() == j;
                    assert(self.has_slot(es[l].index()));
                    assert(self.slot_pos(j) == dst_len + l);
                    assert(self.dense@[dst_len + l] == vs[l]);
                    assert(target[es[l].index()] == vs[l]);
                    assert(target.dom().contains(es[l].index()));
                } else {
                    assert(self.has_slot(j) == old(self).has_slot(j));
                    assert(target.dom().contains(j) == old(self)@.dom().contains(j));
                    assert(old(self)@.dom().contains(j) == old(self).has_slot(j));
                    if self.has_slot(j) {
                        assert(self.slot_pos(j) == old(self).slot_pos(j));
                        assert(old(self).slot_pos(j) < dst_len);
                        assert(self.dense@[self.slot_pos(j)] == old(self).dense@[old(
                            self,
                        ).slot_pos(j)]);
                        assert(target[j] == old(self)@[j]);
                    }
                }
            }
            assert(self.as_map() =~= target);
        }
    }

    /// Grows the sparse array with absent slots until slot `i` exists.
    /// Existing slots, the dense array and the abstract view are untouched.
    fn ensure_slot(&mut self, i: usize)
        requires
            i < usize::MAX,
        ensures
            final(self).dense@ == old(self).dense@,
            final(self).sparse@.len() == (if old(self).sparse@.len() > i {
                old(self).sparse@.len() as int
            } else {
                i + 1
            }),
            final(self).sparse@.subrange(0, old(self).sparse@.len() as int) == old(self).sparse@,
            forall|k: int|
                old(self).sparse@.len() <= k < final(self).sparse@.len()
                    ==> final(self).sparse@[k] is None,
            forall|j: u32| final(self).has_slot(j) == old(self).has_slot(j),
            forall|j: u32|
                #[trigger] final(self).has_slot(j)
                    ==> final(self).slot_pos(j) == old(self).slot_pos(j),
            old(self).wf() ==> final(self).wf(),
            final(self).as_map() == old(self).as_map(),
    {
        while self.sparse.len() < i + 1
            invariant
                i < usize::MAX,
                self.dense@ == old(self).dense@,
                old(self).sparse@.len() <= self.sparse@.len(),
                self.sparse@.len() == old(self).sparse@.len() || self.sparse@.len() <= i + 1,
                self.sparse@.subrange(0, old(self).sparse@.len() as int) == old(self).sparse@,
                forall|k: int|
                    old(self).sparse@.len() <= k < self.sparse@.len() ==> self.sparse@[k] is None,
            decreases i + 1 - self.sparse.len(),
        {
            self.sparse.push(None);
        }
        proof {
            assert forall|j: u32| self.has_slot(j) == old(self).has_slot(j) by {
                if j < old(self).sparse@.len() {
                    assert(self.sparse@[j as int] == old(self).sparse@[j as int]);
                }
            }
            assert forall|j: u32| #[trigger] self.has_slot(j) implies self.slot_pos(j)
                == old(self).slot_pos(j) by {
                assert(self.sparse@[j as int] == old(self).sparse@[j as int]);
            }
            assert(self.as_map() =~= old(self).as_map());
        }
    }

    /// Appends `value` to the dense array and records its position in sparse
    /// slot `i`, which must exist and be absent.
    fn record_fresh(&mut self, i: usize, value: V)
        requires
            old(self).wf(),
            i <= u32::MAX,
            i < old(self).sparse@.len(),
            old(self).sparse@[i as int] is None,
            old(self).dense@.len() < u32::MAX,
        ensures
            final(self).wf(),
            final(self).sparse@.len() == old(self).sparse@.len(),
            final(self).dense_len() == old(self).dense_len() + 1,
            final(self).as_map() == old(self).as_map().insert(i as u32, value),
    {
        let pos: u32 = self.dense.len() as u32;
        let d: DenseIndex = DenseIndex::new(pos).unwrap();
        self.sparse[i] = Some(d);
        self.dense.push(value);
        proof {
            let ii = i as u32;
            assert forall|j: u32| #[trigger] self.has_slot(j) implies self.slot_pos(j)
                < self.dense@.len() by {
                if j != ii {
                    assert(old(self).has_slot(j));
                    assert(self.slot_pos(j) == old(self).slot_pos(j));
                }
            }
            assert forall|j: u32, k: u32|
                #![trigger self.slot_pos(j), self.slot_pos(k)]
                self.has_slot(j) && self.has_slot(k) && j != k implies self.slot_pos(j)
                != self.slot_pos(k) by {
                if j != ii && k != ii {
                    assert(old(self).has_slot(j));
                    assert(old(self).has_slot(k));
                } else if j == ii {
                    assert(old(self).has_slot(k));
                    assert(self.slot_pos(k) == old(self).slot_pos(k) < old(self).dense@.len());
                } else {
                    assert(old(self).has_slot(j));
                    assert(self.slot_pos(j) == old(self).slot_pos(j) < old(self).dense@.len());
                }
            }
            assert forall|j: u32|
                j != ii && #[trigger] self.has_slot(j)
                    implies self.dense@[self.slot_pos(j)]
                    == old(self).dense@[old(self).slot_pos(j)] by {
                assert(old(self).has_slot(j));
                assert(old(self).slot_pos(j) < old(self).dense@.len());
            }
            assert(self.as_map() =~= old(self).as_map().insert(ii, value));
        }
    }
}

/// Containment consistency: an identifier-index lies in the view's domain —
/// the condition under which [`EntitySparseSet::get`] ensures it returns a
/// value — exactly when its sparse slot is present, which is precisely what
/// [`EntitySparseSet::contains`] reports. The two observations agree in
/// every container state.
pub proof fn lemma_containment_consistency<V>(s: EntitySparseSet<V>, j: u32)
    ensures
        s@.dom().contains(j) == s.has_slot(j),
{
}

impl<V> View for EntitySparseSet<V> {
    type V = Map<u32, V>;

    open spec fn view(&self) -> Map<u32, V> {
        self.as_map()
    }
}

impl<V> Default for EntitySparseSet<V> {
    /// An empty container, exactly as [`EntitySparseSet::new`] builds it.
    fn default() -> (s: Self)
        ensures
            s.wf(),
            s@ == Map::<u32, V>::empty(),
            s.dense_len() == 0,
            s.sparse_len() == 0,
    {
        EntitySparseSet::new()
    }
}

} // verus!
