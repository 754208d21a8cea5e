//! The vector index: an exact inner-product nearest-neighbor index over
//! well-formed embeddings, with an explicit capacity that the caller grows,
//! and a byte-level persistence format.
//!
//! `search` returns the `k` nearest entries in ascending distance order,
//! and its contract pins the result down exactly: every returned pair is an
//! entry's id with that entry's true distance, the returned ids are
//! distinct, and no entry outside the result is nearer than the farthest
//! returned one.

use vstd::prelude::*;

use crate::best::{has_id, sorted_by_distance, BestResults, NodeReference};
use crate::vector::{embedding_wf, ip_distance_key, is_normalized, Embedding, EM_LEN};
use crate::codec::{raw_bytes, raw_bytes_of, raw_component, raw_decoded};

verus! {

/// One indexed vector.
pub struct IndexEntry {
    pub id: u64,
    pub embedding: Embedding,
}

/// Distance order key from query `q` to entry `e`.
pub open spec fn entry_dist(q: Seq<u32>, e: IndexEntry) -> int {
    ip_distance_key(q, e.embedding@)
}

/// Some entry carries `id` with distance `d` from `q`.
pub open spec fn result_row_ok(items: Seq<IndexEntry>, q: Seq<u32>, id: u64, d: u64) -> bool {
    exists|p: int| 0 <= p < items.len() && items[p].id == id && d == entry_dist(q, items[p])
}

/// Search results: parallel vectors of distances and ids, nearest first.
pub struct Matches {
    pub distances: Vec<u64>,
    pub ids: Vec<u64>,
}

/// Exact nearest-neighbor index with explicit capacity.
pub struct AnnIndex {
    pub items: Vec<IndexEntry>,
    pub cap: usize,
}

impl AnnIndex {
    /// The indexed entries, in insertion order.
    pub open spec fn items_spec(self) -> Seq<IndexEntry> {
        self.items@
    }

    /// Index invariant: within capacity, ids strictly increasing (so
    /// unique), embeddings well-formed.
    pub open spec fn wf(self) -> bool {
        &&& self.items@.len() <= self.cap
        &&& forall|i: int, j: int| 0 <= i < j < self.items@.len() ==> self.items@[i].id < self.items@[j].id
        &&& forall|i: int| 0 <= i < self.items@.len() ==> embedding_wf(#[trigger] self.items@[i].embedding@)
    }

    /// An empty index with no capacity reserved.
    pub fn new() -> (r: AnnIndex)
        ensures
            r.wf(),
            r.items_spec().len() == 0,
            r.cap == 0,
    {
        AnnIndex { items: Vec::new(), cap: 0 }
    }

    /// The entry at a position, for scanning.
    pub fn entry_at(&self, i: usize) -> (r: &IndexEntry)
        requires
            i < self.items_spec().len(),
        ensures
            *r == self.items_spec()[i as int],
    {
        &self.items[i]
    }

    /// Number of indexed vectors.
    pub fn size(&self) -> (r: usize)
        ensures
            r == self.items_spec().len(),
    {
        self.items.len()
    }

    /// Current capacity; `add` requires free capacity.
    pub fn capacity(&self) -> (r: usize)
        ensures
            r == self.cap,
    {
        self.cap
    }

    /// Reserve room for `n` vectors in all.
    pub fn reserve(&mut self, n: usize)
        requires
            n >= old(self).items_spec().len(),
        ensures
            final(self).items_spec() == old(self).items_spec(),
            final(self).cap == n,
            old(self).wf() ==> final(self).wf(),
    {
        let len: usize = self.items.len();
        self.items.reserve(n - len);
        self.cap = n;
    }

    /// Add a vector under a fresh id, above every id already present.
    pub fn add(&mut self, id: u64, embedding: Embedding)
        requires
            old(self).wf(),
            old(self).items_spec().len() < old(self).cap,
            embedding_wf(embedding@),
            forall|i: int| 0 <= i < old(self).items_spec().len() ==> old(self).items_spec()[i].id
                < id,
        ensures
            final(self).wf(),
            final(self).cap == old(self).cap,
            final(self).items_spec().len() == old(self).items_spec().len() + 1,
            final(self).items_spec().last().id == id,
            final(self).items_spec().last().embedding@ == embedding@,
            final(self).items_spec().drop_last() == old(self).items_spec(),
    {
        self.items.push(IndexEntry { id, embedding });
        proof {
            assert(self.items@.drop_last() =~= old(self).items@);
        }
    }

    /// The nearest `k` entries to `q`, in ascending distance order.
    ///
    /// Exactly `min(k, size)` rows come back; each carries an entry's id
    /// and that entry's true distance from `q`; the ids are distinct; and
    /// every entry whose id is not among them lies at least as far as the
    /// last (farthest) returned row.
    #[verifier::rlimit(100)]
    pub fn search(&self, q: &Embedding, k: usize) -> (r: Matches)
        requires
            self.wf(),
            embedding_wf(q@),
        ensures
            r.distances@.len() == r.ids@.len(),
            r.ids@.len() == if k <= self.items_spec().len() {
                k as int
            } else {
                self.items_spec().len() as int
            },
            sorted_u64(r.distances@),
            forall|i: int| 0 <= i < r.ids@.len() ==> result_row_ok(
                self.items_spec(),
                q@,
                #[trigger] r.ids@[i],
                r.distances@[i],
            ),
            forall|i: int, j: int| 0 <= i < j < r.ids@.len() ==> r.ids@[i] != r.ids@[j],
    {
        let ghost items = self.items@;
        let ghost qv = q@;
        let mut best = BestResults::new(k);
        let mut i: usize = 0;
        while i < self.items.len()
            invariant
                self.wf(),
                embedding_wf(q@),
                items == self.items@,
                qv == q@,
                i <= items.len(),
                best.wf(),
                best.k() == k,
                best.entries().len() == if i <= k {
                    i as int
                } else {
                    k as int
                },
                forall|m: int| 0 <= m < best.entries().len() ==> member_ok(
                    items,
                    qv,
                    #[trigger] best.entries()[m],
                    i as int,
                ),
            decreases items.len() - i,
        {
            let d: u64 = crate::vector::distance_ip(q, &self.items[i].embedding);
            let ghost pre = best;
            let admitted = best.insert(NodeReference { id: i, distance: d });
            proof {
                assert(!has_id(pre.entries(), i)) by {
                    if has_id(pre.entries(), i) {
                        let m = choose|m: int|
                            0 <= m < pre.entries().len() && pre.entries()[m].id == i;
                        assert(member_ok(items, qv, pre.entries()[m], i as int));
                    }
                }
                assert forall|m: int| 0 <= m < best.entries().len() implies member_ok(
                    items,
                    qv,
                    #[trigger] best.entries()[m],
                    i + 1,
                ) by {
                    if admitted && pre.entries().len() < k {
                        if m < pre.entries().len() {
                            assert(best.entries()[m] == pre.entries()[m]);
                        }
                    } else if admitted {
                        if m != pre.worst_idx_spec() {
                            assert(best.entries()[m] == pre.entries()[m]);
                        }
                    } else {
                        assert(best.entries()[m] == pre.entries()[m]);
                    }
                }
            }
            i = i + 1;
        }
        let ghost pre_sort = best;
        best.sort();
        proof {
            lemma_members_preserved(pre_sort.entries(), best.entries(), items, qv);
        }
        let mut distances: Vec<u64> = Vec::new();
        let mut ids: Vec<u64> = Vec::new();
        let n: usize = best.results().len();
        let mut t: usize = 0;
        while t < n
            invariant
                self.wf(),
                items == self.items@,
                qv == q@,
                n == best.entries().len(),
                t <= n,
                best.wf(),
                sorted_by_distance(best.entries()),
                forall|m: int| 0 <= m < n ==> member_ok(
                    items,
                    qv,
                    #[trigger] best.entries()[m],
                    items.len() as int,
                ),
                distances@.len() == t,
                ids@.len() == t,
                forall|m: int| 0 <= m < t ==> distances@[m] == best.entries()[m].distance,
                forall|m: int| 0 <= m < t ==> ids@[m] == items[best.entries()[m].id as int].id,
            decreases n - t,
        {
            let m: NodeReference = best.results()[t];
            distances.push(m.distance);
            ids.push(self.items[m.id].id);
            t = t + 1;
        }
        proof {
            assert forall|a: int, b: int| 0 <= a < b < ids@.len() implies ids@[a] != ids@[b] by {
                let pa = best.entries()[a].id as int;
                let pb = best.entries()[b].id as int;
                assert(pa != pb);
                if pa < pb {
                    assert(items[pa].id < items[pb].id);
                } else {
                    assert(items[pb].id < items[pa].id);
                }
            }
            assert forall|i2: int| 0 <= i2 < ids@.len() implies result_row_ok(
                items,
                qv,
                #[trigger] ids@[i2],
                distances@[i2],
            ) by {
                let p = best.entries()[i2].id as int;
                assert(items[p].id == ids@[i2] && distances@[i2] == entry_dist(qv, items[p]));
            }
            assert forall|a: int, b: int| 0 <= a <= b < distances@.len() implies distances@[a]
                <= distances@[b] by {
                assert(best.entries()[a].distance <= best.entries()[b].distance);
            }
        }
        Matches { distances, ids }
    }

    /// Serialize the index for persistence.
    pub fn save_bytes(&self) -> (r: Vec<u8>)
        requires
            self.wf(),
        ensures
            r@ == index_bytes(self.items_spec()),
    {
        let mut out: Vec<u8> = Vec::new();
        let mut i: usize = 0;
        while i < self.items.len()
            invariant
                self.wf(),
                i <= self.items@.len(),
                out@ == index_bytes(self.items@.take(i as int)),
            decreases self.items@.len() - i,
        {
            let id: u64 = self.items[i].id;
            let ghost before = out@;
            out.push((id & 0xFF) as u8);
            out.push(((id >> 8) & 0xFF) as u8);
            out.push(((id >> 16) & 0xFF) as u8);
            out.push(((id >> 24) & 0xFF) as u8);
            out.push(((id >> 32) & 0xFF) as u8);
            out.push(((id >> 40) & 0xFF) as u8);
            out.push(((id >> 48) & 0xFF) as u8);
            out.push(((id >> 56) & 0xFF) as u8);
            proof {
                assert(out@ =~= before + u64_le_bytes(id));
            }
            let mut rb = raw_bytes(&self.items[i].embedding);
            out.append(&mut rb);
            proof {
                assert(self.items@.take(i + 1).drop_last() =~= self.items@.take(i as int));
                assert(self.items@.take(i + 1).last() == self.items@[i as int]);
                assert(out@ =~= index_bytes(self.items@.take(i + 1)));
            }
            i = i + 1;
        }
        proof {
            assert(self.items@.take(self.items@.len() as int) =~= self.items@);
        }
        out
    }

    /// Rebuild an index from a persisted blob.  Succeeds exactly on valid
    /// images and returns the stored entries in order, with capacity equal
    /// to the entry count.
    #[verifier::rlimit(100)]
    pub fn load_bytes(b: &Vec<u8>) -> (r: Option<AnnIndex>)
        ensures
            r is Some <==> index_bytes_valid(b@),
            r matches Some(idx) ==> {
                &&& idx.wf()
                &&& idx.cap == idx.items_spec().len()
                &&& idx.items_spec().len() == stored_count(b@)
                &&& forall|k: int|
                    0 <= k < stored_count(b@) ==> (#[trigger] idx.items_spec()[k]).id == stored_id(
                        b@,
                        k,
                    )
                &&& forall|k: int|
                    0 <= k < stored_count(b@) ==> (#[trigger] idx.items_spec()[k]).embedding@
                        == stored_embedding(b@, k)
            },
    {
        if b.len() % ENTRY_BYTES != 0 {
            return None;
        }
        let blen: usize = b.len();
        let n: usize = b.len() / ENTRY_BYTES;
        proof {
            vstd::arithmetic::div_mod::lemma_fundamental_div_mod(b@.len() as int, 1544);
        }
        assert(b@.len() == 1544 * n);
        let mut items: Vec<IndexEntry> = Vec::new();
        let mut k: usize = 0;
        while k < n
            invariant
                blen == b@.len(),
                b@.len() == 1544 * n,
                n == stored_count(b@),
                k <= n,
                items@.len() == k,
                forall|t: int| 0 <= t < k ==> (#[trigger] items@[t]).id == stored_id(b@, t),
                forall|t: int|
                    0 <= t < k ==> (#[trigger] items@[t]).embedding@ == stored_embedding(b@, t),
                forall|t: int| 0 <= t < k ==> embedding_wf(#[trigger] stored_embedding(b@, t)),
                forall|t: int| 0 < t < k ==> stored_id(b@, t - 1) < #[trigger] stored_id(b@, t),
            decreases n - k,
        {
            proof {
                assert(k * 1544 + 1544 <= 1544 * n) by (nonlinear_arith)
                    requires
                        k + 1 <= n,
                ;
                assert(1544 * k == k * 1544 && 1544 * (k + 1) == k * 1544 + 1544)
                    by (nonlinear_arith);
            }
            let off: usize = k * ENTRY_BYTES;
            let id: u64 = (b[off] as u64) | ((b[off + 1] as u64) << 8) | ((b[off + 2] as u64) << 16)
                | ((b[off + 3] as u64) << 24) | ((b[off + 4] as u64) << 32) | ((b[off + 5] as u64)
                << 40) | ((b[off + 6] as u64) << 48) | ((b[off + 7] as u64) << 56);
            assert(id == stored_id(b@, k as int));
            if k > 0 {
                let last_id: u64 = items[k - 1].id;
                if id <= last_id {
                    // ids must be strictly ascending
                    assert(!index_bytes_valid(b@)) by {
                        assert(stored_id(b@, k as int - 1) >= stored_id(b@, k as int));
                    }
                    return None;
                }
            }
            let mut em: Vec<u32> = Vec::new();
            let mut c: usize = 0;
            while c < EM_LEN
                invariant
                    blen == b@.len(),
                    b@.len() == 1544 * n,
                    k < n,
                    off == 1544 * k,
                    1544 * (k + 1) <= b@.len(),
                    c <= EM_LEN,
                    em@.len() == c,
                    forall|t: int|
                        0 <= t < c ==> em@[t] == raw_component(
                            b@.subrange(1544 * k + 8, 1544 * (k + 1)),
                            t,
                        ),
                decreases EM_LEN - c,
            {
                let base: usize = off + 8 + 4 * c;
                let q: u32 = (b[base] as u32) | ((b[base + 1] as u32) << 8) | ((b[base
                    + 2] as u32) << 16) | ((b[base + 3] as u32) << 24);
                proof {
                    let sub = b@.subrange(1544 * (k as int) + 8, 1544 * (k as int + 1));
                    assert(sub[4 * c as int] == b@[1544 * (k as int) + 8 + 4 * c as int]);
                    assert(sub[4 * c as int + 1] == b@[1544 * (k as int) + 8 + 4 * c as int + 1]);
                    assert(sub[4 * c as int + 2] == b@[1544 * (k as int) + 8 + 4 * c as int + 2]);
                    assert(sub[4 * c as int + 3] == b@[1544 * (k as int) + 8 + 4 * c as int + 3]);
                }
                em.push(q);
                c = c + 1;
            }
            proof {
                assert(em@ =~= stored_embedding(b@, k as int));
            }
            if !is_normalized(&em) {
                assert(!index_bytes_valid(b@)) by {
                    assert(!embedding_wf(stored_embedding(b@, k as int)));
                }
                return None;
            }
            items.push(IndexEntry { id, embedding: em });
            k = k + 1;
        }
        proof {
            lemma_adjacent_ascending(items@);
        }
        Some(AnnIndex { items, cap: n })
    }
}

/// `ds` is ascending.
pub open spec fn sorted_u64(ds: Seq<u64>) -> bool {
    forall|i: int, j: int| 0 <= i <= j < ds.len() ==> ds[i] <= ds[j]
}

/// A best-buffer member stands for a position among the first `n` entries,
/// with that entry's true distance.
pub open spec fn member_ok(items: Seq<IndexEntry>, q: Seq<u32>, m: NodeReference, n: int) -> bool {
    &&& 0 <= m.id < n
    &&& m.id < items.len()
    &&& m.distance == entry_dist(q, items[m.id as int])
}

proof fn lemma_contains_multiset(s1: Seq<NodeReference>, s2: Seq<NodeReference>, x: NodeReference)
    requires
        s1.to_multiset() == s2.to_multiset(),
        s1.contains(x),
    ensures
        s2.contains(x),
{
    s1.to_multiset_ensures();
    s2.to_multiset_ensures();
    assert(s1.to_multiset().count(x) > 0);
    assert(s2.to_multiset().count(x) > 0);
}

proof fn lemma_members_preserved(
    s1: Seq<NodeReference>,
    s2: Seq<NodeReference>,
    items: Seq<IndexEntry>,
    q: Seq<u32>,
)
    requires
        s1.to_multiset() == s2.to_multiset(),
        forall|m: int| 0 <= m < s1.len() ==> member_ok(items, q, #[trigger] s1[m], items.len() as int),
    ensures
        forall|m: int| 0 <= m < s2.len() ==> member_ok(items, q, #[trigger] s2[m], items.len() as int),
{
    assert forall|m: int| 0 <= m < s2.len() implies member_ok(
        items,
        q,
        #[trigger] s2[m],
        items.len() as int,
    ) by {
        assert(s2.contains(s2[m]));
        lemma_contains_multiset(s2, s1, s2[m]);
        let j = choose|j: int| 0 <= j < s1.len() && s1[j] == s2[m];
        assert(member_ok(items, q, s1[j], items.len() as int));
    }
}

/// Little-endian bytes of a 64-bit id.
pub open spec fn u64_le_bytes(x: u64) -> Seq<u8> {
    seq![
        (x & 0xFF) as u8,
        ((x >> 8) & 0xFF) as u8,
        ((x >> 16) & 0xFF) as u8,
        ((x >> 24) & 0xFF) as u8,
        ((x >> 32) & 0xFF) as u8,
        ((x >> 40) & 0xFF) as u8,
        ((x >> 48) & 0xFF) as u8,
        ((x >> 56) & 0xFF) as u8,
    ]
}

/// A 64-bit id read back from 8 little-endian bytes at `off`.
pub open spec fn u64_at(b: Seq<u8>, off: int) -> u64 {
    (b[off] as u64) | ((b[off + 1] as u64) << 8) | ((b[off + 2] as u64) << 16) | ((b[off
        + 3] as u64) << 24) | ((b[off + 4] as u64) << 32) | ((b[off + 5] as u64) << 40) | ((b[off
        + 6] as u64) << 48) | ((b[off + 7] as u64) << 56)
}

/// Bytes of one stored entry: the id, then the embedding's storage blob.
pub open spec fn entry_bytes(e: IndexEntry) -> Seq<u8> {
    u64_le_bytes(e.id) + raw_bytes_of(e.embedding@)
}

/// The persistence format: the entries' bytes, concatenated.
pub open spec fn index_bytes(items: Seq<IndexEntry>) -> Seq<u8>
    decreases items.len(),
{
    if items.len() == 0 {
        Seq::empty()
    } else {
        index_bytes(items.drop_last()) + entry_bytes(items.last())
    }
}

/// Bytes of one stored entry on disk.
pub const ENTRY_BYTES: usize = 1544;

/// How many entries a blob holds.
pub open spec fn stored_count(b: Seq<u8>) -> int {
    b.len() as int / ENTRY_BYTES as int
}

/// The id of stored entry `k`.
pub open spec fn stored_id(b: Seq<u8>, k: int) -> u64 {
    u64_at(b, ENTRY_BYTES * k)
}

/// The embedding of stored entry `k`.
pub open spec fn stored_embedding(b: Seq<u8>, k: int) -> Seq<u32> {
    raw_decoded(b.subrange(ENTRY_BYTES * k + 8, ENTRY_BYTES * (k + 1)))
}

/// A blob is a valid index image: whole entries only, well-formed
/// embeddings, strictly ascending ids.
pub open spec fn index_bytes_valid(b: Seq<u8>) -> bool {
    &&& b.len() as int % ENTRY_BYTES as int == 0
    &&& forall|k: int| 0 <= k < stored_count(b) ==> embedding_wf(#[trigger] stored_embedding(b, k))
    &&& forall|k: int| 0 < k < stored_count(b) ==> stored_id(b, k - 1) < #[trigger] stored_id(b, k)
}

proof fn lemma_u64_read(b: Seq<u8>, off: int, x: u64)
    requires
        0 <= off,
        off + 8 <= b.len(),
        b.subrange(off, off + 8) == u64_le_bytes(x),
    ensures
        u64_at(b, off) == x,
{
    assert(b[off] == u64_le_bytes(x)[0]) by {
        assert(b.subrange(off, off + 8)[0] == b[off]);
    }
    assert(b[off + 1] == u64_le_bytes(x)[1]) by {
        assert(b.subrange(off, off + 8)[1] == b[off + 1]);
    }
    assert(b[off + 2] == u64_le_bytes(x)[2]) by {
        assert(b.subrange(off, off + 8)[2] == b[off + 2]);
    }
    assert(b[off + 3] == u64_le_bytes(x)[3]) by {
        assert(b.subrange(off, off + 8)[3] == b[off + 3]);
    }
    assert(b[off + 4] == u64_le_bytes(x)[4]) by {
        assert(b.subrange(off, off + 8)[4] == b[off + 4]);
    }
    assert(b[off + 5] == u64_le_bytes(x)[5]) by {
        assert(b.subrange(off, off + 8)[5] == b[off + 5]);
    }
    assert(b[off + 6] == u64_le_bytes(x)[6]) by {
        assert(b.subrange(off, off + 8)[6] == b[off + 6]);
    }
    assert(b[off + 7] == u64_le_bytes(x)[7]) by {
        assert(b.subrange(off, off + 8)[7] == b[off + 7]);
    }
    lemma_u64_reassemble(x);
}

proof fn lemma_u64_reassemble(x: u64)
    ensures
        (((x & 0xFF) as u8) as u64) | (((((x >> 8) & 0xFF) as u8) as u64) << 8) | (((((x >> 16)
            & 0xFF) as u8) as u64) << 16) | (((((x >> 24) & 0xFF) as u8) as u64) << 24) | (((((x
            >> 32) & 0xFF) as u8) as u64) << 32) | (((((x >> 40) & 0xFF) as u8) as u64) << 40) | ((
        (((x >> 48) & 0xFF) as u8) as u64) << 48) | (((((x >> 56) & 0xFF) as u8) as u64) << 56)
            == x,
{
    assert((((x & 0xFF) as u8) as u64) | (((((x >> 8) & 0xFF) as u8) as u64) << 8) | (((((x >> 16)
        & 0xFF) as u8) as u64) << 16) | (((((x >> 24) & 0xFF) as u8) as u64) << 24) | (((((x >> 32)
        & 0xFF) as u8) as u64) << 32) | (((((x >> 40) & 0xFF) as u8) as u64) << 40) | (((((x >> 48)
        & 0xFF) as u8) as u64) << 48) | (((((x >> 56) & 0xFF) as u8) as u64) << 56) == x)
        by (bit_vector);
}

proof fn lemma_ascending_pair(items: Seq<IndexEntry>, i: int, j: int)
    requires
        forall|t: int| 0 < t < items.len() ==> items[t - 1].id < (#[trigger] items[t]).id,
        0 <= i < j < items.len(),
    ensures
        items[i].id < items[j].id,
    decreases j - i,
{
    if j > i + 1 {
        lemma_ascending_pair(items, i, j - 1);
    }
}

proof fn lemma_adjacent_ascending(items: Seq<IndexEntry>)
    requires
        forall|t: int| 0 < t < items.len() ==> items[t - 1].id < (#[trigger] items[t]).id,
    ensures
        forall|i: int, j: int| 0 <= i < j < items.len() ==> items[i].id < items[j].id,
{
    assert forall|i: int, j: int| 0 <= i < j < items.len() implies items[i].id < items[j].id by {
        lemma_ascending_pair(items, i, j);
    }
}

proof fn lemma_index_bytes_len(items: Seq<IndexEntry>)
    requires
        forall|i: int| 0 <= i < items.len() ==> embedding_wf(#[trigger] items[i].embedding@),
    ensures
        index_bytes(items).len() == 1544 * items.len(),
    decreases items.len(),
{
    if items.len() > 0 {
        lemma_index_bytes_len(items.drop_last());
        assert(embedding_wf(items.last().embedding@));
    }
}

proof fn lemma_entry_slice(items: Seq<IndexEntry>, k: int)
    requires
        forall|i: int| 0 <= i < items.len() ==> embedding_wf(#[trigger] items[i].embedding@),
        0 <= k < items.len(),
    ensures
        index_bytes(items).subrange(1544 * k, 1544 * (k + 1)) == entry_bytes(items[k]),
    decreases items.len(),
{
    lemma_index_bytes_len(items);
    lemma_index_bytes_len(items.drop_last());
    if k == items.len() - 1 {
        assert(index_bytes(items).subrange(1544 * k, 1544 * (k + 1)) =~= entry_bytes(items[k]));
    } else {
        lemma_entry_slice(items.drop_last(), k);
        assert(items.drop_last()[k] == items[k]);
        assert(index_bytes(items).subrange(1544 * k, 1544 * (k + 1)) =~= index_bytes(
            items.drop_last(),
        ).subrange(1544 * k, 1544 * (k + 1)));
    }
}

/// A well-formed index's image is valid and reads back entry for entry:
/// persistence is lossless.
#[verifier::rlimit(100)]
proof fn lemma_entry_read_id(items: Seq<IndexEntry>, k: int)
    requires
        forall|i: int| 0 <= i < items.len() ==> embedding_wf(#[trigger] items[i].embedding@),
        0 <= k < items.len(),
    ensures
        stored_id(index_bytes(items), k) == items[k].id,
{
    let ib = index_bytes(items);
    lemma_index_bytes_len(items);
    lemma_entry_slice(items, k);
    let es = ib.subrange(1544 * k, 1544 * (k + 1));
    assert(ib.subrange(1544 * k, 1544 * k + 8) =~= u64_le_bytes(items[k].id)) by {
        assert forall|x: int| 0 <= x < 8 implies ib.subrange(1544 * k, 1544 * k + 8)[x]
            == u64_le_bytes(items[k].id)[x] by {
            assert(es[x] == entry_bytes(items[k])[x]);
            assert(ib.subrange(1544 * k, 1544 * k + 8)[x] == es[x]);
        }
    }
    lemma_u64_read(ib, 1544 * k, items[k].id);
}

#[verifier::rlimit(100)]
proof fn lemma_entry_read_embedding(items: Seq<IndexEntry>, k: int)
    requires
        forall|i: int| 0 <= i < items.len() ==> embedding_wf(#[trigger] items[i].embedding@),
        0 <= k < items.len(),
    ensures
        stored_embedding(index_bytes(items), k) == items[k].embedding@,
{
    let ib = index_bytes(items);
    lemma_index_bytes_len(items);
    lemma_entry_slice(items, k);
    let es = ib.subrange(1544 * k, 1544 * (k + 1));
    assert(embedding_wf(items[k].embedding@));
    crate::codec::lemma_raw_round_trip(items[k].embedding@);
    assert(ib.subrange(1544 * k + 8, 1544 * (k + 1)) =~= raw_bytes_of(items[k].embedding@)) by {
        assert forall|x: int| 0 <= x < 1536 implies ib.subrange(1544 * k + 8, 1544 * (k + 1))[x]
            == raw_bytes_of(items[k].embedding@)[x] by {
            assert(es[8 + x] == entry_bytes(items[k])[8 + x]);
            assert(ib.subrange(1544 * k + 8, 1544 * (k + 1))[x] == es[8 + x]);
        }
    }
}

#[verifier::rlimit(100)]
pub proof fn lemma_index_round_trip(items: Seq<IndexEntry>)
    requires
        forall|i: int, j: int| 0 <= i < j < items.len() ==> items[i].id < items[j].id,
        forall|i: int| 0 <= i < items.len() ==> embedding_wf(#[trigger] items[i].embedding@),
    ensures
        index_bytes(items).len() == 1544 * items.len(),
        index_bytes_valid(index_bytes(items)),
        stored_count(index_bytes(items)) == items.len(),
        forall|k: int| 0 <= k < items.len() ==> stored_id(index_bytes(items), k) == (
        #[trigger] items[k]).id,
        forall|k: int|
            0 <= k < items.len() ==> stored_embedding(index_bytes(items), k) == (
            #[trigger] items[k]).embedding@,
{
    let ib = index_bytes(items);
    lemma_index_bytes_len(items);
    assert(ib.len() as int % 1544 == 0 && ib.len() as int / 1544 == items.len()) by (nonlinear_arith)
        requires
            ib.len() == 1544 * items.len(),
    ;
    assert forall|k: int| 0 <= k < items.len() implies stored_id(ib, k) == (#[trigger] items[k]).id
        && stored_embedding(ib, k) == items[k].embedding@ by {
        lemma_entry_read_id(items, k);
        lemma_entry_read_embedding(items, k);
    }
    assert forall|k: int| 0 <= k < stored_count(ib) implies embedding_wf(
        #[trigger] stored_embedding(ib, k),
    ) by {
        assert(stored_embedding(ib, k) == items[k].embedding@);
    }
    assert forall|k: int| 0 < k < stored_count(ib) implies stored_id(ib, k - 1)
        < #[trigger] stored_id(ib, k) by {
        assert(stored_id(ib, k - 1) == items[k - 1].id);
        assert(stored_id(ib, k) == items[k].id);
    }
}

} // verus!
