//! A small set of sheet identifiers.

use crate::position::SheetId;
use vstd::prelude::*;

verus! {

/// A set of sheet identifiers, kept in the order in which they were added.
#[derive(Debug)]
pub struct SheetIdSet {
    ids: Vec<SheetId>,
}

impl View for SheetIdSet {
    type V = Set<SheetId>;

    closed spec fn view(&self) -> Set<SheetId> {
        self.ids@.to_set()
    }
}

impl SheetIdSet {
    /// No identifier is kept twice.
    #[verifier::type_invariant]
    spec fn once_each(&self) -> bool {
        self.ids@.no_duplicates()
    }

    /// The empty set.
    pub fn new() -> (r: Self)
        ensures
            r@ == Set::<SheetId>::empty(),
    {
        let r = SheetIdSet { ids: Vec::new() };
        assert(r@ =~= Set::<SheetId>::empty());
        r
    }

    /// Whether `id` is in the set.
    pub fn contains(&self, id: SheetId) -> (r: bool)
        ensures
            r == self@.contains(id),
    {
        let mut i: usize = 0;
        while i < self.ids.len()
            invariant
                i <= self.ids.len(),
                forall|j: int| 0 <= j < i ==> self.ids@[j] != id,
            decreases self.ids.len() - i,
        {
            if self.ids[i] == id {
                assert(self.ids@.contains(id));
                return true;
            }
            i += 1;
        }
        false
    }

    /// Adds `id` to the set.
    pub fn insert(&mut self, id: SheetId)
        ensures
            final(self)@ == old(self)@.insert(id),
    {
        proof {
            use_type_invariant(&*self);
        }
        if !self.contains(id) {
            let mut ids = self.ids.clone();
            assert(ids@ =~= self.ids@);
            ids.push(id);
            self.ids = ids;
            assert forall|x: SheetId| self.ids@.contains(x) <==> old(self).ids@.contains(x) || x
                == id by {
                if old(self).ids@.contains(x) {
                    let j = choose|j: int| 0 <= j < old(self).ids@.len() && old(self).ids@[j] == x;
                    assert(self.ids@[j] == x);
                }
                if x == id {
                    assert(self.ids@[self.ids@.len() - 1] == x);
                }
            }
        }
        assert(self@ =~= old(self)@.insert(id));
    }

    /// Adds every identifier of `other` to the set.
    pub fn extend(&mut self, other: &SheetIdSet)
        ensures
            final(self)@ == old(self)@.union(other@),
    {
        let mut i: usize = 0;
        while i < other.ids.len()
            invariant
                i <= other.ids.len(),
                self@ == old(self)@.union(other.ids@.subrange(0, i as int).to_set()),
            decreases other.ids.len() - i,
        {
            self.insert(other.ids[i]);
            proof {
                let a = other.ids@.subrange(0, i as int);
                let b = other.ids@.subrange(0, i + 1);
                assert forall|x: SheetId| b.contains(x) <==> a.contains(x) || x
                    == other.ids@[i as int] by {
                    if a.contains(x) {
                        let j = choose|j: int| 0 <= j < a.len() && a[j] == x;
                        assert(b[j] == x);
                    }
                    if x == other.ids@[i as int] {
                        assert(b[i as int] == x);
                    }
                    if b.contains(x) {
                        let j = choose|j: int| 0 <= j < b.len() && b[j] == x;
                        if j < i {
                            assert(a[j] == x);
                        }
                    }
                }
                assert(self@ =~= old(self)@.union(b.to_set()));
            }
            i += 1;
        }
        assert(other.ids@.subrange(0, i as int) =~= other.ids@);
    }

    /// Whether the set holds nothing.
    pub fn is_empty(&self) -> (r: bool)
        ensures
            r == (self@ == Set::<SheetId>::empty()),
    {
        let r = self.ids.len() == 0;
        proof {
            if r {
                assert(self@ =~= Set::<SheetId>::empty());
            } else {
                assert(self.ids@.contains(self.ids@[0]));
                assert(self@.contains(self.ids@[0]));
            }
        }
        r
    }

    /// Empties the set and returns what it held, each identifier once.
    pub fn drain(&mut self) -> (r: Vec<SheetId>)
        ensures
            final(self)@ == Set::<SheetId>::empty(),
            r@.to_set() == old(self)@,
            r@.no_duplicates(),
    {
        proof {
            use_type_invariant(&*self);
        }
        let out = self.ids.clone();
        assert(out@ =~= self.ids@);
        self.ids = Vec::new();
        assert(self@ =~= Set::<SheetId>::empty());
        out
    }

    /// The identifiers of the set, each once, in the order in which they
    /// were added.
    pub fn to_vec(&self) -> (r: Vec<SheetId>)
        ensures
            r@.to_set() == self@,
            r@.no_duplicates(),
    {
        proof {
            use_type_invariant(self);
        }
        let r = self.ids.clone();
        assert(r@ =~= self.ids@);
        r
    }
}

impl Clone for SheetIdSet {
    fn clone(&self) -> (r: Self)
        ensures
            r@ == self@,
    {
        proof {
            use_type_invariant(self);
        }
        let ids = self.ids.clone();
        assert(ids@ =~= self.ids@);
        SheetIdSet { ids }
    }
}

} // verus!
