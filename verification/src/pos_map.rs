//! A map from cell positions to values, kept as a vector sorted by position.
//!
//! The sorted vector is canonical: two maps with the same entries are the same
//! sequence. Removing an entry and putting it back therefore restores the
//! sequence exactly, which is what lets an edit be undone without trace.

use crate::position::{pos_lt, Pos};
use vstd::prelude::*;

verus! {

/// Strictly increasing positions: sorted, and no position twice.
pub open spec fn sorted<V>(s: Seq<(Pos, V)>) -> bool {
    forall|i: int, j: int| 0 <= i < j < s.len() ==> pos_lt(#[trigger] s[i].0, #[trigger] s[j].0)
}

/// Whether `r` splits `s` into the entries before `pos` and those at or after it.
pub open spec fn splits_at<V>(s: Seq<(Pos, V)>, pos: Pos, r: int) -> bool {
    &&& 0 <= r <= s.len()
    &&& forall|i: int| 0 <= i < r ==> pos_lt(#[trigger] s[i].0, pos)
    &&& forall|i: int| r <= i < s.len() ==> !pos_lt(#[trigger] s[i].0, pos)
}

/// The number of entries of `s` that come before `pos`.
pub open spec fn rank<V>(s: Seq<(Pos, V)>, pos: Pos) -> int
    decreases s.len(),
{
    if s.len() == 0 {
        0
    } else if pos_lt(s.last().0, pos) {
        s.len() as int
    } else {
        rank(s.drop_last(), pos)
    }
}

/// Whether `s` holds an entry for `pos`.
pub open spec fn has_key<V>(s: Seq<(Pos, V)>, pos: Pos) -> bool {
    let r = rank(s, pos);
    r < s.len() && s[r].0 == pos
}

/// The value that `s` holds for `pos`, if any.
pub open spec fn lookup<V>(s: Seq<(Pos, V)>, pos: Pos) -> Option<V> {
    if has_key(s, pos) {
        Some(s[rank(s, pos)].1)
    } else {
        None
    }
}

/// `s` with the entry for `pos` replaced by `value`; `None` removes the entry.
pub open spec fn put<V>(s: Seq<(Pos, V)>, pos: Pos, value: Option<V>) -> Seq<(Pos, V)> {
    let r = rank(s, pos);
    let rest = if has_key(s, pos) {
        s.subrange(r + 1, s.len() as int)
    } else {
        s.subrange(r, s.len() as int)
    };
    match value {
        Some(v) => s.subrange(0, r).push((pos, v)) + rest,
        None => s.subrange(0, r) + rest,
    }
}

/// The rank of a position splits a sorted sequence at that position.
pub proof fn lemma_rank_splits<V>(s: Seq<(Pos, V)>, pos: Pos)
    requires
        sorted(s),
    ensures
        splits_at(s, pos, rank(s, pos)),
    decreases s.len(),
{
    if s.len() > 0 && !pos_lt(s.last().0, pos) {
        let t = s.drop_last();
        assert forall|i: int, j: int| 0 <= i < j < t.len() implies pos_lt(
            #[trigger] t[i].0,
            #[trigger] t[j].0,
        ) by {
            assert(t[i] == s[i] && t[j] == s[j]);
        }
        lemma_rank_splits(t, pos);
        let r = rank(t, pos);
        assert forall|i: int| 0 <= i < r implies pos_lt(#[trigger] s[i].0, pos) by {
            assert(t[i] == s[i]);
        }
        assert forall|i: int| r <= i < s.len() implies !pos_lt(#[trigger] s[i].0, pos) by {
            if i < t.len() {
                assert(t[i] == s[i]);
            }
        }
    }
}

/// Only the rank splits a sorted sequence at a position.
pub proof fn lemma_rank_unique<V>(s: Seq<(Pos, V)>, pos: Pos, r: int)
    requires
        sorted(s),
        splits_at(s, pos, r),
    ensures
        rank(s, pos) == r,
{
    lemma_rank_splits(s, pos);
    let q = rank(s, pos);
    if q < r {
        assert(pos_lt(s[q].0, pos));
    } else if r < q {
        assert(pos_lt(s[r].0, pos));
    }
}

/// What `put` leaves: a sorted sequence that holds `value` at `pos` and is
/// unchanged everywhere else.
pub proof fn lemma_put<V>(s: Seq<(Pos, V)>, pos: Pos, value: Option<V>)
    requires
        sorted(s),
    ensures
        sorted(put(s, pos, value)),
        lookup(put(s, pos, value), pos) == value,
        rank(put(s, pos, value), pos) == rank(s, pos),
        forall|q: Pos| q != pos ==> #[trigger] lookup(put(s, pos, value), q) == lookup(s, q),
{
    lemma_rank_splits(s, pos);
    let r = rank(s, pos);
    let t = put(s, pos, value);
    let skip: int = if has_key(s, pos) {
        1
    } else {
        0
    };
    let add: int = if value is Some {
        1
    } else {
        0
    };
    assert(t.len() == s.len() - skip + add);
    assert forall|i: int| 0 <= i < r implies #[trigger] t[i] == s[i] by {}
    assert forall|i: int| r + add <= i < t.len() implies #[trigger] t[i] == s[i - add + skip] by {}
    assert forall|i: int| r + skip <= i < s.len() implies pos_lt(pos, #[trigger] s[i].0) by {
        if i > r {
            assert(pos_lt(s[r].0, s[i].0));
        }
    }
    assert forall|i: int, j: int| 0 <= i < j < t.len() implies pos_lt(
        #[trigger] t[i].0,
        #[trigger] t[j].0,
    ) by {
        if i < r {
            assert(pos_lt(s[i].0, pos));
            if j >= r + add {
                assert(pos_lt(s[i].0, s[j - add + skip].0));
            }
        } else if i >= r + add {
            assert(pos_lt(s[i - add + skip].0, s[j - add + skip].0));
        } else {
            assert(pos_lt(pos, s[j - add + skip].0));
        }
    }
    assert(splits_at(t, pos, r)) by {
        assert forall|i: int| r <= i < t.len() implies !pos_lt(#[trigger] t[i].0, pos) by {
            if i >= r + add {
                assert(pos_lt(pos, s[i - add + skip].0));
            }
        }
    }
    lemma_rank_unique(t, pos, r);
    assert forall|q: Pos| q != pos implies #[trigger] lookup(t, q) == lookup(s, q) by {
        lemma_rank_splits(s, q);
        let k = rank(s, q);
        if pos_lt(q, pos) {
            if k > r {
                assert(pos_lt(s[r].0, q));
            }
            assert(splits_at(t, q, k)) by {
                assert forall|i: int| k <= i < t.len() implies !pos_lt(#[trigger] t[i].0, q) by {
                    if i < r {
                        assert(!pos_lt(s[i].0, q));
                    } else if i >= r + add {
                        assert(!pos_lt(s[i - add + skip].0, q));
                    }
                }
            }
            lemma_rank_unique(t, q, k);
            if k < r {
                assert(t[k] == s[k]);
            } else if k < s.len() {
                assert(!pos_lt(s[k].0, pos));
            }
        } else {
            assert(pos_lt(pos, q));
            if k < r {
                assert(pos_lt(s[k].0, pos));
            }
            if has_key(s, pos) && k == r {
                assert(!pos_lt(s[r].0, q));
            }
            let k2 = k - skip + add;
            assert(splits_at(t, q, k2)) by {
                assert forall|i: int| 0 <= i < k2 implies pos_lt(#[trigger] t[i].0, q) by {
                    if i < r {
                        assert(pos_lt(s[i].0, pos));
                    } else if i >= r + add {
                        assert(pos_lt(s[i - add + skip].0, q));
                    }
                }
                assert forall|i: int| k2 <= i < t.len() implies !pos_lt(#[trigger] t[i].0, q) by {
                    assert(!pos_lt(s[i - add + skip].0, q));
                }
            }
            lemma_rank_unique(t, q, k2);
            if k < s.len() {
                assert(t[k2] == s[k]);
            }
        }
    }
}

/// Putting back what was there restores the sequence exactly.
pub proof fn lemma_put_undo<V>(s: Seq<(Pos, V)>, pos: Pos, value: Option<V>)
    requires
        sorted(s),
    ensures
        put(put(s, pos, value), pos, lookup(s, pos)) == s,
{
    lemma_put(s, pos, value);
    lemma_rank_splits(s, pos);
    let t = put(s, pos, value);
    assert(put(t, pos, lookup(s, pos)) =~= s);
}

/// In a sorted sequence, an entry is found at its own place.
pub proof fn lemma_rank_at<V>(s: Seq<(Pos, V)>, i: int)
    requires
        sorted(s),
        0 <= i < s.len(),
    ensures
        rank(s, s[i].0) == i,
        has_key(s, s[i].0),
        lookup(s, s[i].0) == Some(s[i].1),
{
    assert(splits_at(s, s[i].0, i)) by {
        assert forall|k: int| i <= k < s.len() implies !pos_lt(#[trigger] s[k].0, s[i].0) by {
            if k > i {
                assert(pos_lt(s[i].0, s[k].0));
            }
        }
    }
    lemma_rank_unique(s, s[i].0, i);
}

/// Putting a value where one is replaces it in place.
pub proof fn lemma_put_replace<V>(s: Seq<(Pos, V)>, pos: Pos, value: V)
    requires
        sorted(s),
        has_key(s, pos),
    ensures
        put(s, pos, Some(value)) == s.update(rank(s, pos), (pos, value)),
{
    lemma_rank_splits(s, pos);
    assert(put(s, pos, Some(value)) =~= s.update(rank(s, pos), (pos, value)));
}

/// A map from positions to values of type `V`.
pub struct PosMap<V> {
    entries: Vec<(Pos, V)>,
}

impl<V> View for PosMap<V> {
    type V = Seq<(Pos, V)>;

    closed spec fn view(&self) -> Seq<(Pos, V)> {
        self.entries@
    }
}

impl<V> PosMap<V> {
    /// The entries are sorted by position, so no position occurs twice.
    pub open spec fn wf(&self) -> bool {
        sorted(self@)
    }

    /// The empty map.
    pub fn new() -> (r: Self)
        ensures
            r@ == Seq::<(Pos, V)>::empty(),
            r.wf(),
    {
        PosMap { entries: Vec::new() }
    }

    /// The number of entries.
    pub fn len(&self) -> (r: usize)
        ensures
            r == self@.len(),
    {
        self.entries.len()
    }

    /// Whether the map holds nothing.
    pub fn is_empty(&self) -> (r: bool)
        ensures
            r == (self@.len() == 0),
    {
        self.entries.len() == 0
    }

    /// Whether the entries are in order, as they always are unless the
    /// map was built by other means than the functions of this type.
    pub fn is_sorted(&self) -> (r: bool)
        ensures
            r == self.wf(),
    {
        let n = self.entries.len();
        let mut i: usize = 1;
        while i < n
            invariant
                1 <= i,
                n == self@.len(),
                forall|a: int, b: int|
                    0 <= a < b < i && b < n ==> pos_lt(
                        #[trigger] self@[a].0,
                        #[trigger] self@[b].0,
                    ),
            decreases n - i,
        {
            if !self.entries[i - 1].0.lt(&self.entries[i].0) {
                return false;
            }
            assert forall|a: int, b: int| 0 <= a < b < i + 1 && b < n implies pos_lt(
                #[trigger] self@[a].0,
                #[trigger] self@[b].0,
            ) by {
                if b == i && a < i - 1 {
                    assert(pos_lt(self@[a].0, self@[i - 1].0));
                }
            }
            i += 1;
        }
        true
    }

    /// The entry at `index` in position order.
    pub fn get_index(&self, index: usize) -> (r: Option<(Pos, &V)>)
        ensures
            index < self@.len() ==> r == Some((self@[index as int].0, &self@[index as int].1)),
            index >= self@.len() ==> r is None,
    {
        if index < self.entries.len() {
            let e = &self.entries[index];
            Some((e.0, &e.1))
        } else {
            None
        }
    }

    /// The number of entries before `pos`: where an entry for `pos` is or would be.
    pub fn rank_of(&self, pos: Pos) -> (r: usize)
        requires
            self.wf(),
        ensures
            r == rank(self@, pos),
            r <= self@.len(),
    {
        let mut lo: usize = 0;
        let mut hi: usize = self.entries.len();
        while lo < hi
            invariant
                0 <= lo <= hi <= self.entries.len(),
                self.wf(),
                forall|i: int| 0 <= i < lo ==> pos_lt(#[trigger] self@[i].0, pos),
                forall|i: int| hi <= i < self@.len() ==> !pos_lt(#[trigger] self@[i].0, pos),
            decreases hi - lo,
        {
            let mid: usize = lo + (hi - lo) / 2;
            if self.entries[mid].0.lt(&pos) {
                assert forall|i: int| 0 <= i < mid + 1 implies pos_lt(
                    #[trigger] self@[i].0,
                    pos,
                ) by {
                    if i < mid {
                        assert(pos_lt(self@[i].0, self@[mid as int].0));
                    }
                }
                lo = mid + 1;
            } else {
                assert forall|i: int| mid <= i < self@.len() implies !pos_lt(
                    #[trigger] self@[i].0,
                    pos,
                ) by {
                    if i > mid {
                        assert(pos_lt(self@[mid as int].0, self@[i].0));
                    }
                }
                hi = mid;
            }
        }
        proof {
            lemma_rank_unique(self@, pos, lo as int);
        }
        lo
    }

    /// Whether the map holds a value for `pos`.
    pub fn contains(&self, pos: Pos) -> (r: bool)
        requires
            self.wf(),
        ensures
            r == has_key(self@, pos),
    {
        let r = self.rank_of(pos);
        r < self.entries.len() && self.entries[r].0 == pos
    }

    /// The value that the map holds for `pos`.
    pub fn get(&self, pos: Pos) -> (r: Option<&V>)
        requires
            self.wf(),
        ensures
            match r {
                Some(v) => lookup(self@, pos) == Some(*v),
                None => lookup(self@, pos) is None,
            },
    {
        let r = self.rank_of(pos);
        if r < self.entries.len() && self.entries[r].0 == pos {
            Some(&self.entries[r].1)
        } else {
            None
        }
    }

    /// Replaces the entry for `pos` by `value` (`None` removes it) and returns
    /// what was there.
    pub fn set(&mut self, pos: Pos, value: Option<V>) -> (prev: Option<V>)
        requires
            old(self).wf(),
        ensures
            final(self).wf(),
            final(self)@ == put(old(self)@, pos, value),
            prev == lookup(old(self)@, pos),
    {
        let r = self.rank_of(pos);
        let ghost before = self@;
        let prev = if r < self.entries.len() && self.entries[r].0 == pos {
            Some(self.entries.remove(r).1)
        } else {
            None
        };
        match value {
            Some(v) => {
                self.entries.insert(r, (pos, v));
            },
            None => {},
        }
        proof {
            lemma_put(before, pos, value);
            assert(self@ =~= put(before, pos, value));
        }
        prev
    }
}

} // verus!
