use vstd::prelude::*;

verus! {

/// Entries sorted by key, never decreasing.
pub open spec fn sorted_by_key(s: Seq<(u64, usize)>) -> bool {
    forall|i: int, j: int| 0 <= i < j < s.len() ==> #[trigger] s[i].0 <= #[trigger] s[j].0
}

/// `s` with `e` placed after every entry whose key is not greater than `e`'s,
/// and before every entry whose key is greater.
pub open spec fn inserted_after_equal_keys(s: Seq<(u64, usize)>, e: (u64, usize), r: Seq<(u64, usize)>) -> bool {
    exists|p: int|
        0 <= p <= s.len() && (forall|i: int| 0 <= i < p ==> #[trigger] s[i].0 <= e.0) && (forall|i: int|
            p <= i < s.len() ==> #[trigger] s[i].0 > e.0) && r == #[trigger] s.insert(p, e)
}

/// `r` is `s` without its first occurrence of `e`, which sits at `p`.
pub open spec fn removed_first_at(s: Seq<(u64, usize)>, e: (u64, usize), p: int, r: Seq<(u64, usize)>) -> bool {
    0 <= p < s.len() && s[p] == e && (forall|i: int| 0 <= i < p ==> #[trigger] s[i] != e) && r == s.remove(p)
}

/// The number of entries of `s` whose key is not greater than `k`.
pub open spec fn count_at_most(s: Seq<(u64, usize)>, k: u64) -> nat
    decreases s.len(),
{
    if s.len() == 0 {
        0
    } else {
        count_at_most(s.drop_last(), k) + if s.last().0 <= k { 1nat } else { 0nat }
    }
}

/// The position of the first occurrence of `e` in `s`; `s.len()` if none.
pub open spec fn first_position(s: Seq<(u64, usize)>, e: (u64, usize)) -> nat
    decreases s.len(),
{
    if s.len() == 0 {
        0
    } else if s[0] == e {
        0
    } else {
        1 + first_position(s.drop_first(), e)
    }
}

proof fn lemma_count_at_most(s: Seq<(u64, usize)>, k: u64, p: int)
    requires
        0 <= p <= s.len(),
        forall|i: int| 0 <= i < p ==> #[trigger] s[i].0 <= k,
        forall|i: int| p <= i < s.len() ==> #[trigger] s[i].0 > k,
    ensures
        count_at_most(s, k) == p,
    decreases s.len(),
{
    if s.len() > 0 {
        let t = s.drop_last();
        assert(s.last() == s[s.len() - 1]);
        if p == s.len() {
            lemma_count_at_most(t, k, p - 1);
        } else {
            lemma_count_at_most(t, k, p);
        }
    }
}

proof fn lemma_first_position(s: Seq<(u64, usize)>, e: (u64, usize), p: int)
    requires
        0 <= p < s.len(),
        s[p] == e,
        forall|i: int| 0 <= i < p ==> #[trigger] s[i] != e,
    ensures
        first_position(s, e) == p,
    decreases p,
{
    if p > 0 {
        let t = s.drop_first();
        assert(s[0] != e);
        assert forall|i: int| 0 <= i < p - 1 implies #[trigger] t[i] != e by {
            assert(t[i] == s[i + 1]);
        }
        lemma_first_position(t, e, p - 1);
    }
}

/// An ordered map from keys to the values stored under them, visited from the
/// smallest key up and, under one key, in the order of insertion.
pub struct SortedMultiMap {
    entries: Vec<(u64, usize)>,
}

impl View for SortedMultiMap {
    type V = Seq<(u64, usize)>;

    closed spec fn view(&self) -> Seq<(u64, usize)> {
        self.entries@
    }
}

impl SortedMultiMap {
    pub closed spec fn wf(&self) -> bool {
        sorted_by_key(self.entries@)
    }

    pub fn new() -> (r: SortedMultiMap)
        ensures
            r.wf(),
            r@ == Seq::<(u64, usize)>::empty(),
    {
        SortedMultiMap { entries: Vec::new() }
    }

    /// The number of stored (key, value) pairs.
    pub fn len(&self) -> (r: usize)
        ensures
            r == self@.len(),
    {
        self.entries.len()
    }

    /// The pair at position `i` in visiting order.
    pub fn entry(&self, i: usize) -> (r: (u64, usize))
        requires
            i < self@.len(),
        ensures
            r == self@[i as int],
    {
        self.entries[i]
    }

    /// The position after the last entry whose key is not greater than `key`.
    fn upper_bound(&self, key: u64) -> (p: usize)
        requires
            self.wf(),
        ensures
            p <= self@.len(),
            forall|i: int| 0 <= i < p ==> #[trigger] self@[i].0 <= key,
            forall|i: int| p <= i < self@.len() ==> #[trigger] self@[i].0 > key,
    {
        let mut lo: usize = 0;
        let mut hi: usize = self.entries.len();
        while lo < hi
            invariant
                self.wf(),
                lo <= hi <= self@.len(),
                forall|i: int| 0 <= i < lo ==> #[trigger] self@[i].0 <= key,
                forall|i: int| hi <= i < self@.len() ==> #[trigger] self@[i].0 > key,
            decreases hi - lo,
        {
            let mid = lo + (hi - lo) / 2;
            if self.entries[mid].0 <= key {
                assert(forall|i: int| 0 <= i <= mid ==> #[trigger] self@[i].0 <= self@[mid as int].0);
                lo = mid + 1;
            } else {
                assert(forall|i: int| mid <= i < self@.len() ==> self@[mid as int].0 <= #[trigger] self@[i].0);
                hi = mid;
            }
        }
        lo
    }

    /// The first position whose key is not less than `key`.
    fn lower_bound(&self, key: u64) -> (p: usize)
        requires
            self.wf(),
        ensures
            p <= self@.len(),
            forall|i: int| 0 <= i < p ==> #[trigger] self@[i].0 < key,
            forall|i: int| p <= i < self@.len() ==> #[trigger] self@[i].0 >= key,
    {
        let mut lo: usize = 0;
        let mut hi: usize = self.entries.len();
        while lo < hi
            invariant
                self.wf(),
                lo <= hi <= self@.len(),
                forall|i: int| 0 <= i < lo ==> #[trigger] self@[i].0 < key,
                forall|i: int| hi <= i < self@.len() ==> #[trigger] self@[i].0 >= key,
            decreases hi - lo,
        {
            let mid = lo + (hi - lo) / 2;
            if self.entries[mid].0 < key {
                assert(forall|i: int| 0 <= i <= mid ==> #[trigger] self@[i].0 <= self@[mid as int].0);
                lo = mid + 1;
            } else {
                assert(forall|i: int| mid <= i < self@.len() ==> self@[mid as int].0 <= #[trigger] self@[i].0);
                hi = mid;
            }
        }
        lo
    }

    /// Stores `value` under `key`, after the values already stored under it.
    pub fn insert(&mut self, key: u64, value: usize)
        requires
            old(self).wf(),
        ensures
            final(self).wf(),
            inserted_after_equal_keys(old(self)@, (key, value), final(self)@),
            final(self)@ == old(self)@.insert(count_at_most(old(self)@, key) as int, (key, value)),
    {
        let p = self.upper_bound(key);
        proof {
            lemma_count_at_most(self@, key, p as int);
        }
        self.entries.insert(p, (key, value));
        assert(inserted_after_equal_keys(old(self)@, (key, value), self@)) by {
            assert(self@ == old(self)@.insert(p as int, (key, value)));
        }
        assert forall|i: int, j: int| 0 <= i < j < self@.len() implies #[trigger] self@[i].0 <= #[trigger] self@[j].0 by {
            let s = old(self)@;
            if i < p && j > p {
                assert(self@[j] == s[j - 1]);
            } else if i < p && j == p {
            } else if i == p && j > p {
                assert(self@[j] == s[j - 1]);
            } else if i > p {
                assert(self@[i] == s[i - 1] && self@[j] == s[j - 1]);
            }
        }
    }

    /// Removes the first occurrence of `value` under `key`; tells whether there
    /// was one.
    pub fn delete(&mut self, key: &u64, value: &usize) -> (found: bool)
        requires
            old(self).wf(),
        ensures
            final(self).wf(),
            found == old(self)@.contains((*key, *value)),
            found ==> exists|p: int| removed_first_at(old(self)@, (*key, *value), p, final(self)@),
            found ==> final(self)@ == old(self)@.remove(first_position(old(self)@, (*key, *value)) as int),
            !found ==> final(self)@ == old(self)@,
    {
        let k = *key;
        let v = *value;
        let ghost s = self@;
        let mut p = self.lower_bound(k);
        assert forall|i: int| 0 <= i < p implies #[trigger] self@[i] != (k, v) by {
            assert(self@[i].0 < k);
        }
        while p < self.entries.len() && self.entries[p].0 == k
            invariant
                self.wf(),
                self@ == s,
                s == old(self)@,
                k == *key,
                v == *value,
                p <= self@.len(),
                forall|i: int| 0 <= i < p ==> #[trigger] self@[i] != (k, v),
                forall|i: int| p <= i < self@.len() ==> #[trigger] self@[i].0 >= k,
            decreases self@.len() - p,
        {
            if self.entries[p].1 == v {
                assert(s[p as int] == (k, v));
                self.entries.remove(p);
                assert(self@ == s.remove(p as int));
                assert(removed_first_at(s, (k, v), p as int, self@));
                proof {
                    lemma_first_position(s, (k, v), p as int);
                }
                assert(s.contains((k, v)));
                assert forall|i: int, j: int| 0 <= i < j < self@.len() implies #[trigger] self@[i].0 <= #[trigger] self@[j].0 by {
                    let s = old(self)@;
                    if i < p && j >= p {
                        assert(self@[j] == s[j + 1]);
                    } else if i >= p {
                        assert(self@[i] == s[i + 1] && self@[j] == s[j + 1]);
                    }
                }
                return true;
            }
            p = p + 1;
        }
        assert forall|i: int| 0 <= i < self@.len() implies #[trigger] self@[i] != (k, v) by {
            if i > p {
                assert(self@[p as int].0 <= self@[i].0);
            }
        }
        false
    }

    /// A well-formed map visits its keys in non-decreasing order.
    pub proof fn lemma_sorted(&self)
        requires
            self.wf(),
        ensures
            sorted_by_key(self@),
    {
    }

    /// All pairs in visiting order.
    pub fn iter(&self) -> (r: Vec<(u64, usize)>)
        requires
            self.wf(),
        ensures
            r@ == self@,
            sorted_by_key(r@),
    {
        let mut r: Vec<(u64, usize)> = Vec::new();
        let mut i: usize = 0;
        while i < self.entries.len()
            invariant
                i <= self@.len(),
                r@ == self@.subrange(0, i as int),
            decreases self@.len() - i,
        {
            r.push(self.entries[i]);
            i = i + 1;
        }
        assert(r@ == self@);
        r
    }
}

} // verus!
