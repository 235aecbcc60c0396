//! A component storage: a mapping from entities to component values.
//!
//! One storage holds the values of exactly one component type. Its
//! mathematical model is a `Map<Entity, V>`; the concrete layout is a
//! vector of pairs with pairwise-distinct keys, so iteration order is
//! storage-defined, not entity-creation order.

use vstd::prelude::*;
use crate::entity::Entity;

verus! {

/// The map denoted by a sequence of (entity, value) pairs: later pairs
/// win, though a well-formed storage never holds two pairs for one
/// entity.
pub open spec fn map_of<V>(s: Seq<(Entity, V)>) -> Map<Entity, V>
    decreases s.len(),
{
    if s.len() == 0 {
        Map::empty()
    } else {
        map_of(s.drop_last()).insert(s.last().0, s.last().1)
    }
}

/// No two pairs of `s` share an entity.
pub open spec fn distinct_keys<V>(s: Seq<(Entity, V)>) -> bool {
    forall|i: int, j: int| 0 <= i < j < s.len() ==> (#[trigger] s[i]).0 != (#[trigger] s[j]).0
}

/// An entity is in the denoted map exactly when some pair carries it.
pub proof fn lemma_map_of_contains<V>(s: Seq<(Entity, V)>, e: Entity)
    ensures
        map_of(s).contains_key(e) <==> exists|i: int| 0 <= i < s.len() && (#[trigger] s[i]).0 == e,
    decreases s.len(),
{
    if s.len() > 0 {
        lemma_map_of_contains(s.drop_last(), e);
        if s.last().0 == e {
            assert(s[s.len() - 1].0 == e);
        } else if map_of(s).contains_key(e) {
            let i = choose|i: int| 0 <= i < s.drop_last().len() && (#[trigger] s.drop_last()[i]).0 == e;
            assert(s[i].0 == e);
        } else {
            assert forall|i: int| 0 <= i < s.len() implies (#[trigger] s[i]).0 != e by {
                if i < s.len() - 1 {
                    assert(s.drop_last()[i] == s[i]);
                }
            }
        }
    }
}

/// With distinct keys, the pair at index `i` gives the map's value at
/// its entity.
pub proof fn lemma_map_of_index<V>(s: Seq<(Entity, V)>, i: int)
    requires
        distinct_keys(s),
        0 <= i < s.len(),
    ensures
        map_of(s).contains_key(s[i].0),
        map_of(s)[s[i].0] == s[i].1,
    decreases s.len(),
{
    if i == s.len() - 1 {
    } else {
        assert(s.drop_last()[i] == s[i]);
        assert(distinct_keys(s.drop_last())) by {
            assert forall|p: int, q: int| 0 <= p < q < s.drop_last().len()
                implies (#[trigger] s.drop_last()[p]).0 != (#[trigger] s.drop_last()[q]).0 by {
                assert(s.drop_last()[p] == s[p]);
                assert(s.drop_last()[q] == s[q]);
            }
        }
        lemma_map_of_index(s.drop_last(), i);
        assert(s[i].0 != s.last().0);
    }
}

/// Dropping the last pair keeps keys distinct.
pub proof fn lemma_distinct_drop_last<V>(s: Seq<(Entity, V)>)
    requires
        distinct_keys(s),
        s.len() > 0,
    ensures
        distinct_keys(s.drop_last()),
{
    assert forall|p: int, q: int| 0 <= p < q < s.drop_last().len()
        implies (#[trigger] s.drop_last()[p]).0 != (#[trigger] s.drop_last()[q]).0 by {
        assert(s.drop_last()[p] == s[p]);
        assert(s.drop_last()[q] == s[q]);
    }
}

/// Removing the pair at index `i` removes exactly its entity from the
/// denoted map.
pub proof fn lemma_map_of_remove<V>(s: Seq<(Entity, V)>, i: int)
    requires
        distinct_keys(s),
        0 <= i < s.len(),
    ensures
        map_of(s.remove(i)) == map_of(s).remove(s[i].0),
    decreases s.len(),
{
    lemma_distinct_drop_last(s);
    if i == s.len() - 1 {
        assert(s.remove(i) =~= s.drop_last());
        lemma_map_of_contains(s.drop_last(), s[i].0);
        assert forall|j: int| 0 <= j < s.drop_last().len()
            implies (#[trigger] s.drop_last()[j]).0 != s[i].0 by {
            assert(s.drop_last()[j] == s[j]);
        }
        assert(map_of(s.drop_last()) =~= map_of(s).remove(s[i].0));
    } else {
        lemma_map_of_remove(s.drop_last(), i);
        assert(s.remove(i).drop_last() =~= s.drop_last().remove(i));
        assert(s.remove(i).last() == s.last());
        assert(s.remove(i).len() == s.len() - 1);
        assert(map_of(s.remove(i)) == map_of(s.drop_last().remove(i)).insert(s.last().0, s.last().1));
        assert(s.drop_last()[i] == s[i]);
        assert(s[i].0 != s.last().0);
        assert(map_of(s.drop_last()).remove(s[i].0).insert(s.last().0, s.last().1)
            =~= map_of(s.drop_last()).insert(s.last().0, s.last().1).remove(s[i].0));
    }
}

/// With distinct keys, the denoted map has one entry per pair.
pub proof fn lemma_map_of_len<V>(s: Seq<(Entity, V)>)
    requires
        distinct_keys(s),
    ensures
        map_of(s).dom().finite(),
        map_of(s).len() == s.len(),
    decreases s.len(),
{
    if s.len() > 0 {
        lemma_distinct_drop_last(s);
        lemma_map_of_len(s.drop_last());
        lemma_map_of_contains(s.drop_last(), s.last().0);
        assert forall|j: int| 0 <= j < s.drop_last().len()
            implies (#[trigger] s.drop_last()[j]).0 != s.last().0 by {
            assert(s.drop_last()[j] == s[j]);
            assert(s[j].0 != s[s.len() - 1].0);
        }
        assert(!map_of(s.drop_last()).contains_key(s.last().0));
    }
}

/// A storage of component values of one type, keyed by entity.
pub struct Storage<V> {
    entries: Vec<(Entity, V)>,
}

impl<V: Copy> Storage<V> {
    /// The pairs actually held, in storage order.
    pub closed spec fn pairs(&self) -> Seq<(Entity, V)> {
        self.entries@
    }

    /// Well-formed: no entity appears twice.
    pub closed spec fn wf(&self) -> bool {
        distinct_keys(self.entries@)
    }

    /// An empty storage.
    pub fn new() -> (r: Self)
        ensures
            r.wf(),
            r@ == Map::<Entity, V>::empty(),
    {
        Storage { entries: Vec::new() }
    }

    /// The value attached to `e`, if any.
    pub fn get(&self, e: Entity) -> (r: Option<V>)
        requires
            self.wf(),
        ensures
            r == if self@.contains_key(e) {
                Some(self@[e])
            } else {
                None::<V>
            },
    {
        let n = self.entries.len();
        let mut i: usize = 0;
        while i < n
            invariant
                n == self.entries.len(),
                self.wf(),
                forall|j: int| 0 <= j < i ==> (#[trigger] self.entries@[j]).0 != e,
            decreases n - i,
        {
            let (k, v) = self.entries[i];
            if k == e {
                proof {
                    lemma_map_of_index(self.entries@, i as int);
                }
                return Some(v);
            }
            i += 1;
        }
        proof {
            lemma_map_of_contains(self.entries@, e);
        }
        None
    }

    /// Whether `e` holds a component in this storage.
    pub fn contains(&self, e: Entity) -> (r: bool)
        requires
            self.wf(),
        ensures
            r == self@.contains_key(e),
    {
        self.get(e).is_some()
    }

    /// Attach `v` to `e`, replacing any value `e` already had.
    pub fn insert(&mut self, e: Entity, v: V)
        requires
            old(self).wf(),
        ensures
            final(self).wf(),
            final(self)@ == old(self)@.insert(e, v),
    {
        let n = self.entries.len();
        let mut i: usize = 0;
        while i < n
            invariant
                n == self.entries.len(),
                self.wf(),
                *self == *old(self),
                forall|j: int| 0 <= j < i ==> (#[trigger] self.entries@[j]).0 != e,
            decreases n - i,
        {
            let (k, _) = self.entries[i];
            if k == e {
                proof {
                    lemma_map_of_remove(self.entries@, i as int);
                }
                let ghost before = self.entries@;
                self.entries.remove(i);
                proof {
                    assert forall|p: int, q: int| 0 <= p < q < self.entries@.len()
                        implies (#[trigger] self.entries@[p]).0 != (#[trigger] self.entries@[q]).0 by {
                        assert(self.entries@[p] == if p < i { before[p] } else { before[p + 1] });
                        assert(self.entries@[q] == if q < i { before[q] } else { before[q + 1] });
                    }
                    assert forall|j: int| 0 <= j < self.entries@.len()
                        implies (#[trigger] self.entries@[j]).0 != e by {
                        assert(self.entries@[j] == if j < i { before[j] } else { before[j + 1] });
                    }
                }
                self.push_fresh(e, v);
                proof {
                    assert(old(self)@.remove(e).insert(e, v) =~= old(self)@.insert(e, v));
                }
                return;
            }
            i += 1;
        }
        proof {
            lemma_map_of_contains(self.entries@, e);
        }
        self.push_fresh(e, v);
    }

    /// Append a pair whose entity is known absent.
    fn push_fresh(&mut self, e: Entity, v: V)
        requires
            old(self).wf(),
            forall|j: int| 0 <= j < old(self).pairs().len() ==> (#[trigger] old(self).pairs()[j]).0 != e,
        ensures
            final(self).wf(),
            final(self)@ == old(self)@.insert(e, v),
    {
        let ghost before = self.entries@;
        self.entries.push((e, v));
        proof {
            assert(self.entries@.drop_last() =~= before);
            assert forall|p: int, q: int| 0 <= p < q < self.entries@.len()
                implies (#[trigger] self.entries@[p]).0 != (#[trigger] self.entries@[q]).0 by {
                assert(self.entries@[p] == before[p]);
                assert(old(self).pairs()[p] == before[p]);
                if q < self.entries@.len() - 1 {
                    assert(self.entries@[q] == before[q]);
                } else {
                    assert(self.entries@[q] == (e, v));
                }
            }
        }
    }

    /// Detach `e`'s component, if it has one.
    pub fn remove(&mut self, e: Entity)
        requires
            old(self).wf(),
        ensures
            final(self).wf(),
            final(self)@ == old(self)@.remove(e),
    {
        let n = self.entries.len();
        let mut i: usize = 0;
        while i < n
            invariant
                n == self.entries.len(),
                self.wf(),
                *self == *old(self),
                forall|j: int| 0 <= j < i ==> (#[trigger] self.entries@[j]).0 != e,
            decreases n - i,
        {
            let (k, _) = self.entries[i];
            if k == e {
                proof {
                    lemma_map_of_remove(self.entries@, i as int);
                }
                let ghost before = self.entries@;
                self.entries.remove(i);
                proof {
                    assert forall|p: int, q: int| 0 <= p < q < self.entries@.len()
                        implies (#[trigger] self.entries@[p]).0 != (#[trigger] self.entries@[q]).0 by {
                        assert(self.entries@[p] == if p < i { before[p] } else { before[p + 1] });
                        assert(self.entries@[q] == if q < i { before[q] } else { before[q + 1] });
                    }
                }
                return;
            }
            i += 1;
        }
        proof {
            lemma_map_of_contains(self.entries@, e);
            assert(final(self)@ =~= old(self)@.remove(e));
        }
    }

    /// How many entities hold a component here.
    pub fn len(&self) -> (r: usize)
        requires
            self.wf(),
        ensures
            r == self@.len(),
    {
        proof {
            lemma_map_of_len(self.entries@);
        }
        self.entries.len()
    }

    /// The (entity, value) pairs held, in storage order — the order
    /// pairs were appended, not entity-creation order.
    pub fn items(&self) -> (r: Vec<(Entity, V)>)
        requires
            self.wf(),
        ensures
            r@ == self.pairs(),
            forall|i: int| 0 <= i < r@.len()
                ==> self@.contains_key((#[trigger] r@[i]).0) && self@[r@[i].0] == r@[i].1,
            forall|e: Entity| self@.contains_key(e)
                ==> exists|i: int| 0 <= i < r@.len() && (#[trigger] r@[i]).0 == e,
    {
        let n = self.entries.len();
        let mut r: Vec<(Entity, V)> = Vec::new();
        let mut i: usize = 0;
        while i < n
            invariant
                n == self.entries.len(),
                self.wf(),
                r@.len() == i <= n,
                forall|j: int| 0 <= j < i ==> r@[j] == (#[trigger] self.entries@[j]),
            decreases n - i,
        {
            let (k, v) = self.entries[i];
            r.push((k, v));
            i += 1;
        }
        proof {
            assert(r@ =~= self.entries@);
            assert forall|p: int| 0 <= p < r@.len()
                implies self@.contains_key((#[trigger] r@[p]).0) && self@[r@[p].0] == r@[p].1 by {
                lemma_map_of_index(self.entries@, p);
            }
            assert forall|e: Entity| self@.contains_key(e)
                implies exists|p: int| 0 <= p < r@.len() && (#[trigger] r@[p]).0 == e by {
                lemma_map_of_contains(self.entries@, e);
                let p = choose|p: int| 0 <= p < self.entries@.len() && (#[trigger] self.entries@[p]).0 == e;
                assert(r@[p].0 == e);
            }
        }
        r
    }

    /// The entities holding a component here, in storage order, each
    /// exactly once.
    pub fn entities(&self) -> (r: Vec<Entity>)
        requires
            self.wf(),
        ensures
            forall|i: int, j: int| 0 <= i < j < r@.len() ==> r@[i] != r@[j],
            forall|i: int| 0 <= i < r@.len() ==> self@.contains_key(#[trigger] r@[i]),
            forall|e: Entity| self@.contains_key(e) ==> exists|i: int| 0 <= i < r@.len() && r@[i] == e,
    {
        let n = self.entries.len();
        let mut r: Vec<Entity> = Vec::new();
        let mut i: usize = 0;
        while i < n
            invariant
                n == self.entries.len(),
                self.wf(),
                r@.len() == i <= n,
                forall|j: int| 0 <= j < i ==> r@[j] == (#[trigger] self.entries@[j]).0,
            decreases n - i,
        {
            let (k, _) = self.entries[i];
            r.push(k);
            i += 1;
        }
        proof {
            assert forall|p: int, q: int| 0 <= p < q < r@.len() implies r@[p] != r@[q] by {
                assert(r@[p] == self.entries@[p].0);
                assert(r@[q] == self.entries@[q].0);
            }
            assert forall|p: int| 0 <= p < r@.len() implies self@.contains_key(#[trigger] r@[p]) by {
                lemma_map_of_index(self.entries@, p);
            }
            assert forall|e: Entity| self@.contains_key(e)
                implies exists|p: int| 0 <= p < r@.len() && r@[p] == e by {
                lemma_map_of_contains(self.entries@, e);
                let p = choose|p: int| 0 <= p < self.entries@.len() && (#[trigger] self.entries@[p]).0 == e;
                assert(r@[p] == e);
            }
        }
        r
    }
}

impl<V: Copy> View for Storage<V> {
    type V = Map<Entity, V>;

    /// A storage denotes the map from entities to their values.
    closed spec fn view(&self) -> Map<Entity, V> {
        map_of(self.entries@)
    }
}

} // verus!
