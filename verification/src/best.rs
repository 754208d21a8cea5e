//! Bounded best-K accumulator of `(id, distance)` pairs.
//!
//! Holds at most `K` entries with pairwise-distinct ids.  Until it is full
//! every novel id is admitted; once full, a novel id is admitted only when
//! its distance is strictly below the cached worst distance, and it replaces
//! the worst member.  The worst member is recomputed by an O(K) scan on every
//! transition, so `worst_distance()` always names the maximum distance held
//! while the buffer is full.

use vstd::prelude::*;

verus! {

/// One accumulated result: an opaque id and its distance order key.
#[derive(Debug, Clone, Copy, PartialEq, Eq, Structural)]
pub struct NodeReference {
    pub id: usize,
    pub distance: u64,
}

/// Some entry of `s` carries `id`.
pub open spec fn has_id(s: Seq<NodeReference>, id: usize) -> bool {
    exists|i: int| 0 <= i < s.len() && s[i].id == id
}

/// No two entries of `s` share an id.
pub open spec fn distinct_ids(s: Seq<NodeReference>) -> bool {
    forall|i: int, j: int| 0 <= i < j < s.len() ==> s[i].id != s[j].id
}

/// Every distance in `s` is at most `d`.
pub open spec fn all_at_most(s: Seq<NodeReference>, d: u64) -> bool {
    forall|i: int| 0 <= i < s.len() ==> s[i].distance <= d
}

/// Entries of `s` are in ascending distance order.
pub open spec fn sorted_by_distance(s: Seq<NodeReference>) -> bool {
    forall|i: int, j: int| 0 <= i <= j < s.len() ==> s[i].distance <= s[j].distance
}

/// Bounded buffer of the best (lowest-distance) results seen so far.
pub struct BestResults {
    pub results: Vec<NodeReference>,
    pub worst_result_index: usize,
    pub worst_distance: u64,
    pub size: usize,
}

impl BestResults {
    /// The entries currently held, in internal order.
    pub open spec fn entries(self) -> Seq<NodeReference> {
        self.results@
    }

    /// The capacity `K` the buffer was created with.
    pub open spec fn k(self) -> int {
        self.size as int
    }

    /// The cached worst distance; meaningful whenever the buffer is full.
    pub open spec fn worst_dist_spec(self) -> u64 {
        self.worst_distance
    }

    /// The cached index of the worst entry.
    pub open spec fn worst_idx_spec(self) -> int {
        self.worst_result_index as int
    }

    /// The buffer holds exactly `K` entries.
    pub open spec fn is_full(self) -> bool {
        self.entries().len() == self.k()
    }

    /// Structural invariant: never more than `K` entries, ids pairwise
    /// distinct, and while full the cached worst entry is a maximum.
    pub open spec fn wf(self) -> bool {
        &&& self.entries().len() <= self.k()
        &&& distinct_ids(self.entries())
        &&& (self.is_full() && self.k() > 0 ==> {
            &&& 0 <= self.worst_idx_spec() < self.entries().len()
            &&& self.entries()[self.worst_idx_spec()].distance == self.worst_dist_spec()
            &&& all_at_most(self.entries(), self.worst_dist_spec())
        })
        &&& (self.k() == 0 ==> self.worst_dist_spec() == 0)
    }

    /// An empty accumulator of capacity `size`.
    pub fn new(size: usize) -> (r: BestResults)
        ensures
            r.wf(),
            r.entries().len() == 0,
            r.k() == size,
            r.worst_dist_spec() == 0,
    {
        BestResults { results: Vec::new(), worst_result_index: 0, worst_distance: 0, size }
    }

    fn contains_id(&self, id: usize) -> (r: bool)
        ensures
            r == has_id(self.entries(), id),
    {
        let mut i: usize = 0;
        while i < self.results.len()
            invariant
                i <= self.entries().len(),
                forall|j: int| 0 <= j < i ==> self.entries()[j].id != id,
            decreases self.entries().len() - i,
        {
            if self.results[i].id == id {
                return true;
            }
            i = i + 1;
        }
        false
    }

    fn update_worst(&mut self)
        requires
            old(self).entries().len() > 0,
        ensures
            final(self).entries() == old(self).entries(),
            final(self).k() == old(self).k(),
            0 <= final(self).worst_idx_spec() < final(self).entries().len(),
            final(self).entries()[final(self).worst_idx_spec()].distance
                == final(self).worst_dist_spec(),
            all_at_most(final(self).entries(), final(self).worst_dist_spec()),
    {
        self.worst_result_index = 0;
        self.worst_distance = self.results[0].distance;
        let mut i: usize = 1;
        while i < self.results.len()
            invariant
                self.entries() == old(self).entries(),
                self.size == old(self).size,
                self.entries().len() > 0,
                1 <= i <= self.entries().len(),
                0 <= self.worst_idx_spec() < self.entries().len(),
                self.entries()[self.worst_idx_spec()].distance == self.worst_dist_spec(),
                forall|j: int| 0 <= j < i ==> self.entries()[j].distance <= self.worst_dist_spec(),
            decreases self.entries().len() - i,
        {
            if self.results[i].distance > self.worst_distance {
                self.worst_distance = self.results[i].distance;
                self.worst_result_index = i;
            }
            i = i + 1;
        }
    }

    /// Offer `(id, distance)`.  Admitted (returning `true`) exactly when the
    /// id is novel and either the buffer is not yet full or the distance is
    /// strictly better than the cached worst; a novel admission below
    /// capacity appends, and an admission at capacity replaces the worst
    /// entry.
    pub fn insert(&mut self, r: NodeReference) -> (b: bool)
        requires
            old(self).wf(),
        ensures
            final(self).wf(),
            final(self).k() == old(self).k(),
            b == (!has_id(old(self).entries(), r.id) && (old(self).entries().len() < old(self).k()
                || r.distance < old(self).worst_dist_spec())),
            !b ==> *final(self) == *old(self),
            b && old(self).entries().len() < old(self).k() ==> final(self).entries()
                == old(self).entries().push(r),
            b && old(self).entries().len() == old(self).k() ==> final(self).entries()
                == old(self).entries().update(old(self).worst_idx_spec(), r),
            final(self).entries().len() <= old(self).entries().len() + 1,
    {
        if self.results.len() < self.size {
            if self.contains_id(r.id) {
                return false;
            }
            self.results.push(r);
            if self.results.len() == self.size {
                self.update_worst();
            }
            return true;
        }
        if r.distance < self.worst_distance {
            assert(self.k() > 0);
            if self.contains_id(r.id) {
                return false;
            }
            let i: usize = self.worst_result_index;
            self.results[i] = r;
            proof {
                lemma_distinct_after_replace(old(self).entries(), i as int, r, self.entries());
            }
            self.update_worst();
            return true;
        }
        false
    }

    /// Ascending sort by distance; afterwards the cached worst entry is the
    /// last one.  The entries are a permutation of what was held before.
    pub fn sort(&mut self)
        requires
            old(self).wf(),
        ensures
            final(self).wf(),
            final(self).k() == old(self).k(),
            final(self).entries().to_multiset() == old(self).entries().to_multiset(),
            final(self).entries().len() == old(self).entries().len(),
            sorted_by_distance(final(self).entries()),
            final(self).entries().len() > 0 ==> {
                &&& final(self).worst_idx_spec() == final(self).entries().len() - 1
                &&& final(self).worst_dist_spec() == final(self).entries().last().distance
                &&& all_at_most(final(self).entries(), final(self).worst_dist_spec())
            },
            final(self).entries().len() == 0 ==> *final(self) == *old(self),
    {
        if self.results.len() == 0 {
            return;
        }
        let ghost orig = self.results@;
        let mut i: usize = 1;
        while i < self.results.len()
            invariant
                1 <= i <= self.entries().len(),
                self.entries().len() == orig.len(),
                self.entries().to_multiset() == orig.to_multiset(),
                distinct_ids(orig) ==> distinct_ids(self.entries()),
                sorted_by_distance(self.entries().take(i as int)),
                self.k() == old(self).k(),
                self.size == old(self).size,
            decreases self.entries().len() - i,
        {
            let mut j: usize = i;
            while j > 0 && self.results[j - 1].distance > self.results[j].distance
                invariant
                    0 <= j <= i < self.entries().len(),
                    self.entries().len() == orig.len(),
                    self.entries().to_multiset() == orig.to_multiset(),
                    distinct_ids(orig) ==> distinct_ids(self.entries()),
                    sorted_by_distance(self.entries().take(j as int)),
                    forall|a: int, b: int|
                        j <= a <= b <= i ==> self.entries()[a].distance
                            <= self.entries()[b].distance,
                    forall|a: int, b: int|
                        0 <= a < j && j < b <= i ==> self.entries()[a].distance
                            <= self.entries()[b].distance,
                    self.k() == old(self).k(),
                    self.size == old(self).size,
                decreases j,
            {
                let ghost before = self.entries();
                let x: NodeReference = self.results[j - 1];
                let y: NodeReference = self.results[j];
                self.results[j - 1] = y;
                self.results[j] = x;
                proof {
                    let now = self.entries();
                    let jj = j as int;
                    assert(now =~= before.update(jj - 1, before[jj]).update(jj, before[jj - 1]));
                    lemma_swap_multiset(before, now, jj - 1, jj);
                    assert forall|a: int, b: int|
                        0 <= a < b < now.len() && distinct_ids(orig) implies now[a].id
                        != now[b].id by {
                        assert(distinct_ids(before));
                        if a == jj - 1 && b == jj {
                            assert(now[a] == before[jj] && now[b] == before[jj - 1]);
                        } else if a == jj - 1 {
                            assert(now[a] == before[jj] && now[b] == before[b]);
                        } else if b == jj - 1 {
                            assert(now[b] == before[jj] && now[a] == before[a]);
                        } else if a == jj {
                            assert(now[a] == before[jj - 1] && now[b] == before[b]);
                        } else if b == jj {
                            assert(now[b] == before[jj - 1] && now[a] == before[a]);
                        } else {
                            assert(now[a] == before[a] && now[b] == before[b]);
                        }
                    }
                    // sortedness of the untouched prefix
                    assert forall|a: int, b: int| 0 <= a <= b < jj - 1 implies now[a].distance
                        <= now[b].distance by {
                        assert(now[a] == before[a] && now[b] == before[b]);
                        assert(before.take(jj)[a] == before[a]);
                        assert(before.take(jj)[b] == before[b]);
                    }
                    lemma_sorted_prefix(now, jj - 1);
                    // the tail from jj - 1 to i is ordered
                    assert forall|a: int, b: int|
                        jj - 1 <= a <= b <= i implies now[a].distance <= now[b].distance by {
                        if a == jj - 1 {
                            if b > jj {
                                assert(now[b] == before[b]);
                            }
                        } else if a == jj {
                            if b > jj {
                                assert(now[b] == before[b]);
                            }
                        } else {
                            assert(now[a] == before[a] && now[b] == before[b]);
                        }
                    }
                    // everything before jj - 1 is at most everything after it
                    assert forall|a: int, b: int|
                        0 <= a < jj - 1 && jj - 1 < b <= i implies now[a].distance
                            <= now[b].distance by {
                        assert(now[a] == before[a]);
                        assert(before.take(jj)[a] == before[a]);
                        assert(before.take(jj)[jj - 1] == before[jj - 1]);
                        if b == jj {
                            assert(now[b] == before[jj - 1]);
                        } else {
                            assert(now[b] == before[b]);
                        }
                    }
                }
                j = j - 1;
            }
            proof {
                assert forall|a: int, b: int| 0 <= a <= b <= i implies self.entries()[a].distance
                    <= self.entries()[b].distance by {
                    let jj = j as int;
                    if b < jj {
                        assert(self.entries().take(jj)[a] == self.entries()[a]);
                        assert(self.entries().take(jj)[b] == self.entries()[b]);
                    } else if a < jj && b == jj {
                        assert(self.entries().take(jj)[a] == self.entries()[a]);
                        assert(self.entries().take(jj)[jj - 1] == self.entries()[jj - 1]);
                    }
                }
                lemma_sorted_prefix(self.entries(), i + 1);
            }
            i = i + 1;
        }
        self.worst_result_index = self.results.len() - 1;
        self.worst_distance = self.results[self.results.len() - 1].distance;
        proof {
            assert(self.entries().take(self.entries().len() as int) =~= self.entries());
            vstd::seq_lib::to_multiset_len(orig);
            vstd::seq_lib::to_multiset_len(self.entries());
        }
    }

    /// The entries currently held.
    pub fn results(&self) -> (r: &Vec<NodeReference>)
        ensures
            r@ == self.entries(),
    {
        &self.results
    }

    /// How many entries are held.
    pub fn len(&self) -> (r: usize)
        ensures
            r == self.entries().len(),
    {
        self.results.len()
    }

    /// Drop all entries.
    pub fn clear(&mut self)
        requires
            old(self).wf(),
        ensures
            final(self).entries().len() == 0,
            final(self).k() == old(self).k(),
            final(self).wf(),
    {
        self.results.clear();
    }

    /// The cached worst (largest) distance; while the buffer is full this is
    /// the maximum distance held.
    pub fn worst_distance(&self) -> (r: u64)
        ensures
            r == self.worst_dist_spec(),
    {
        self.worst_distance
    }
}

/// While the buffer is full, `worst_distance()` is the maximum distance
/// held: every entry is at most it, and some entry attains it.
pub proof fn lemma_worst_is_max(b: BestResults)
    requires
        b.wf(),
        b.is_full(),
        b.k() > 0,
    ensures
        all_at_most(b.entries(), b.worst_dist_spec()),
        exists|i: int|
            0 <= i < b.entries().len() && (#[trigger] b.entries()[i]).distance
                == b.worst_dist_spec(),
{
    assert(b.entries()[b.worst_idx_spec()].distance == b.worst_dist_spec());
}

proof fn lemma_sorted_prefix(s: Seq<NodeReference>, n: int)
    requires
        0 <= n <= s.len(),
        forall|a: int, b: int| 0 <= a <= b < n ==> s[a].distance <= s[b].distance,
    ensures
        sorted_by_distance(s.take(n)),
{
    assert forall|a: int, b: int| 0 <= a <= b < s.take(n).len() implies s.take(n)[a].distance
        <= s.take(n)[b].distance by {
        assert(s.take(n)[a] == s[a]);
        assert(s.take(n)[b] == s[b]);
    }
}

proof fn lemma_distinct_after_replace(
    s: Seq<NodeReference>,
    i: int,
    r: NodeReference,
    t: Seq<NodeReference>,
)
    requires
        distinct_ids(s),
        !has_id(s, r.id),
        0 <= i < s.len(),
        t == s.update(i, r),
    ensures
        distinct_ids(t),
{
    assert forall|a: int, b: int| 0 <= a < b < t.len() implies t[a].id != t[b].id by {
        if a == i {
            assert(t[b] == s[b]);
            if s[b].id == r.id {
                assert(has_id(s, r.id));
            }
        } else if b == i {
            assert(t[a] == s[a]);
            if s[a].id == r.id {
                assert(has_id(s, r.id));
            }
        } else {
            assert(t[a] == s[a] && t[b] == s[b]);
            assert(s[a].id != s[b].id);
        }
    }
}

proof fn lemma_update_multiset(s: Seq<NodeReference>, a: int, v: NodeReference)
    requires
        0 <= a < s.len(),
    ensures
        s.update(a, v).to_multiset() == s.to_multiset().remove(s[a]).insert(v),
{
    assert(s.update(a, v) =~= s.remove(a).insert(a, v));
    vstd::seq_lib::to_multiset_remove(s, a);
    vstd::seq_lib::to_multiset_insert(s.remove(a), a, v);
}

proof fn lemma_swap_multiset(s1: Seq<NodeReference>, s2: Seq<NodeReference>, a: int, b: int)
    requires
        0 <= a < b < s1.len(),
        s2 == s1.update(a, s1[b]).update(b, s1[a]),
    ensures
        s2.to_multiset() == s1.to_multiset(),
        s1.len() == s2.len(),
{
    broadcast use vstd::multiset::group_multiset_axioms;

    let mid = s1.update(a, s1[b]);
    lemma_update_multiset(s1, a, s1[b]);
    lemma_update_multiset(mid, b, s1[a]);
    assert(mid[b] == s1[b]);
    s1.to_multiset_ensures();
    assert(s1.contains(s1[a]));
    assert(s1.contains(s1[b]));
    assert(s2.to_multiset() =~= s1.to_multiset());
}

} // verus!
