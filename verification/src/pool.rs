//! The resource pool's index assignment: a mapping from a stable key
//! (an asset's path) to the integer index of its pre-built draw
//! configuration.
//!
//! The asset collaborator decodes pixels and builds GPU state; the core
//! only needs this assignment, built once at startup in enumeration
//! order and read-only afterwards. Feeding `Painter::new` the pool's
//! size ties every index handed out here to a configuration the painter
//! accepts.

use vstd::prelude::*;

verus! {

/// The keys loaded so far, each holding the index equal to its
/// position; no key twice.
pub struct ResourcePool {
    keys: Vec<String>,
}

impl ResourcePool {
    /// The keys in index order.
    pub closed spec fn keys_seq(&self) -> Seq<Seq<char>> {
        self.keys@.map_values(|s: String| s@)
    }

    /// Well-formed: no key appears twice.
    pub closed spec fn wf(&self) -> bool {
        forall|i: int, j: int| 0 <= i < j < self.keys@.len()
            ==> (#[trigger] self.keys@[i])@ != (#[trigger] self.keys@[j])@
    }

    /// An empty pool.
    pub fn new() -> (r: Self)
        ensures
            r.wf(),
            r.keys_seq() == Seq::<Seq<char>>::empty(),
    {
        ResourcePool { keys: Vec::new() }
    }

    /// How many resources are pooled; the size to build the painter
    /// with.
    pub fn len(&self) -> (r: usize)
        ensures
            r == self.keys_seq().len(),
    {
        self.keys.len()
    }

    /// Assign `key` its index: the next free one, or the one it already
    /// has — a key never gets two indices.
    pub fn add(&mut self, key: String) -> (r: usize)
        requires
            old(self).wf(),
        ensures
            final(self).wf(),
            r < final(self).keys_seq().len(),
            final(self).keys_seq()[r as int] == key@,
            old(self).keys_seq().contains(key@)
                ==> final(self).keys_seq() == old(self).keys_seq(),
            !old(self).keys_seq().contains(key@)
                ==> final(self).keys_seq() == old(self).keys_seq().push(key@)
                    && r == old(self).keys_seq().len(),
    {
        let n = self.keys.len();
        let mut i: usize = 0;
        while i < n
            invariant
                n == self.keys.len(),
                self.keys@ == old(self).keys@,
                self.wf(),
                forall|j: int| 0 <= j < i ==> (#[trigger] self.keys@[j])@ != key@,
            decreases n - i,
        {
            if self.keys[i] == key {
                proof {
                    assert(self.keys_seq()[i as int] == key@);
                    assert(self.keys_seq().contains(key@));
                }
                return i;
            }
            i += 1;
        }
        proof {
            assert forall|j: int| 0 <= j < self.keys_seq().len()
                implies #[trigger] self.keys_seq()[j] != key@ by {
                assert(self.keys@[j]@ != key@);
            }
            if self.keys_seq().contains(key@) {
                let j = choose|j: int| 0 <= j < self.keys_seq().len() && self.keys_seq()[j] == key@;
                assert(false);
            }
        }
        proof {
            assert(self.keys@ == old(self).keys@);
        }
        let ghost before = self.keys@;
        self.keys.push(key);
        proof {
            assert(self.keys_seq() =~= before.map_values(|s: String| s@).push(self.keys@[n as int]@));
            assert forall|p: int, q: int| 0 <= p < q < self.keys@.len()
                implies (#[trigger] self.keys@[p])@ != (#[trigger] self.keys@[q])@ by {
                assert(self.keys@[p] == before[p]);
                if q < self.keys@.len() - 1 {
                    assert(self.keys@[q] == before[q]);
                }
            }
        }
        n
    }

    /// The index assigned to `key`, if it was pooled.
    pub fn lookup(&self, key: &String) -> (r: Option<usize>)
        requires
            self.wf(),
        ensures
            r matches Some(i) ==> i < self.keys_seq().len() && self.keys_seq()[i as int] == key@,
            r is None ==> forall|j: int| 0 <= j < self.keys_seq().len()
                ==> #[trigger] self.keys_seq()[j] != key@,
    {
        let n = self.keys.len();
        let mut i: usize = 0;
        while i < n
            invariant
                n == self.keys.len(),
                forall|j: int| 0 <= j < i ==> (#[trigger] self.keys@[j])@ != key@,
            decreases n - i,
        {
            if self.keys[i] == *key {
                proof {
                    assert(self.keys_seq()[i as int] == key@);
                }
                return Some(i);
            }
            i += 1;
        }
        proof {
            assert forall|j: int| 0 <= j < self.keys_seq().len()
                implies #[trigger] self.keys_seq()[j] != key@ by {
                assert(self.keys@[j]@ != key@);
            }
        }
        None
    }
}

} // verus!
