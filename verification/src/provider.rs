//! The search provider: the single owner of the page store and the vector
//! index, keeping the two coherent.
//!
//! Coherence means the index holds exactly the stored rows, in order, id
//! for id and vector for vector.  Every operation here preserves it, so a
//! search can always join index hits back to their rows.

use vstd::prelude::*;

use crate::index::{entry_dist, result_row_ok, AnnIndex, Matches};
use crate::store::{has_page_id, has_url, row_index_of, Page, PageStore, StoreError};
use crate::vector::{embedding_wf, ip_distance_key, is_normalized, Embedding};

verus! {

/// Most pages a node will store locally.
pub const CAPACITY: usize = 1000000;

/// How many results a local search returns at most.
pub const SEARCH_K: usize = 20;

/// Failure of a provider operation.
#[derive(Debug, Clone, Copy, PartialEq, Eq, Structural)]
pub enum SearchError {
    /// The vector offered is not unit-length within tolerance.
    InvalidVector,
    /// No stored page carries the requested id.
    PageNotFound,
    /// The local page budget is exhausted.
    CapacityExceeded,
}

/// One page found by a search, with its distance order key.
pub struct FoundPage {
    pub id: u64,
    pub distance: u64,
    pub url: String,
    pub title: String,
    pub text: String,
}

/// A finished local search.
pub struct SearchResult {
    pub pages: Vec<FoundPage>,
    pub pages_searched: usize,
}

/// `p` reports row data and the row's true distance from `q`.
pub open spec fn page_from_row(rows: Seq<Page>, q: Seq<u32>, p: FoundPage) -> bool {
    exists|i: int|
        0 <= i < rows.len() && rows[i].id == p.id && rows[i].url@ == p.url@ && rows[i].title@
            == p.title@ && rows[i].text@ == p.text@ && p.distance == ip_distance_key(
            q,
            rows[i].embedding@,
        )
}

/// Owner of the page store and the vector index.
pub struct SearchProvider {
    pub store: PageStore,
    pub index: AnnIndex,
}

impl SearchProvider {
    /// The index holds exactly the stored rows, in order.
    pub open spec fn coherent(self) -> bool {
        &&& self.index.items_spec().len() == self.store.rows_spec().len()
        &&& forall|i: int|
            0 <= i < self.store.rows_spec().len() ==> (#[trigger] self.index.items_spec()[i]).id
                == self.store.rows_spec()[i].id
        &&& forall|i: int|
            0 <= i < self.store.rows_spec().len() ==> (#[trigger] self.index.items_spec()[i]).embedding@
                == self.store.rows_spec()[i].embedding@
    }

    /// Provider invariant: both halves well-formed and coherent.
    pub open spec fn wf(self) -> bool {
        &&& self.store.wf()
        &&& self.index.wf()
        &&& self.coherent()
    }

    /// A provider over an empty store.
    pub fn new() -> (r: SearchProvider)
        ensures
            r.wf(),
            r.store.rows_spec().len() == 0,
    {
        SearchProvider { store: PageStore::new(), index: AnnIndex::new() }
    }

    /// Rebuild the index from the store: afterwards the index holds one
    /// vector per stored page.
    pub fn fill_index_from_db(&mut self)
        requires
            old(self).store.wf(),
        ensures
            final(self).wf(),
            final(self).store == old(self).store,
            final(self).index.items_spec().len() == final(self).store.rows_spec().len(),
    {
        let mut index = AnnIndex::new();
        let count: usize = self.store.count();
        index.reserve(count);
        let mut i: usize = 0;
        while i < count
            invariant
                self.store.wf(),
                count == self.store.rows_spec().len(),
                i <= count,
                index.wf(),
                index.cap == count,
                index.items_spec().len() == i,
                forall|t: int|
                    0 <= t < i ==> (#[trigger] index.items_spec()[t]).id
                        == self.store.rows_spec()[t].id,
                forall|t: int|
                    0 <= t < i ==> (#[trigger] index.items_spec()[t]).embedding@
                        == self.store.rows_spec()[t].embedding@,
            decreases count - i,
        {
            let row: &Page = self.store.row_at(i);
            proof {
                assert forall|t: int| 0 <= t < i implies (#[trigger] index.items_spec()[t]).id
                    < row.id by {
                    assert(index.items_spec()[t].id == self.store.rows_spec()[t].id);
                }
            }
            let emb: Embedding = crate::vector::copy_embedding(&row.embedding);
            index.add(row.id, emb);
            proof {
                assert forall|t: int| 0 <= t < i + 1 implies (#[trigger] index.items_spec()[t]).id
                    == self.store.rows_spec()[t].id && index.items_spec()[t].embedding@
                    == self.store.rows_spec()[t].embedding@ by {
                    if t < i {
                        assert(index.items_spec()[t] == index.items_spec().drop_last()[t]);
                    } else {
                        assert(index.items_spec()[t] == index.items_spec().last());
                    }
                }
            }
            i = i + 1;
        }
        self.index = index;
    }

    /// A provider over a loaded store, reusing a persisted index image when
    /// it matches the store and silently rebuilding otherwise.
    pub fn from_parts(store: PageStore, index_image: Option<&Vec<u8>>) -> (r: SearchProvider)
        requires
            store.wf(),
        ensures
            r.wf(),
            r.store == store,
    {
        let mut provider = SearchProvider { store, index: AnnIndex::new() };
        let mut loaded = false;
        if let Some(image) = index_image {
            if let Some(index) = AnnIndex::load_bytes(image) {
                if provider.index_matches(&index) {
                    provider.index = index;
                    loaded = true;
                }
            }
        }
        if !loaded {
            provider.fill_index_from_db();
        }
        provider
    }

    fn index_matches(&self, index: &AnnIndex) -> (r: bool)
        requires
            self.store.wf(),
        ensures
            r == (SearchProvider { store: self.store, index: *index }).coherent(),
    {
        if index.size() != self.store.count() {
            return false;
        }
        let n: usize = self.store.count();
        let mut i: usize = 0;
        while i < n
            invariant
                self.store.wf(),
                n == self.store.rows_spec().len(),
                index.items_spec().len() == n,
                i <= n,
                forall|t: int|
                    0 <= t < i ==> (#[trigger] index.items_spec()[t]).id
                        == self.store.rows_spec()[t].id,
                forall|t: int|
                    0 <= t < i ==> (#[trigger] index.items_spec()[t]).embedding@
                        == self.store.rows_spec()[t].embedding@,
            decreases n - i,
        {
            let row: &Page = self.store.row_at(i);
            let entry = index.entry_at(i);
            if entry.id != row.id {
                return false;
            }
            if !crate::vector::embeddings_equal(&entry.embedding, &row.embedding) {
                return false;
            }
            i = i + 1;
        }
        true
    }

    /// How many pages are stored.
    pub fn count(&self) -> (r: usize)
        ensures
            r == self.store.rows_spec().len(),
    {
        self.store.count()
    }

    /// Whether the local page budget still has room.
    pub fn local_space_available(&self) -> (r: bool)
        ensures
            r == (self.store.rows_spec().len() < CAPACITY),
    {
        self.store.count() < CAPACITY
    }

    /// Serialize the index for persistence.
    pub fn save(&self) -> (r: Vec<u8>)
        requires
            self.wf(),
        ensures
            r@ == crate::index::index_bytes(self.index.items_spec()),
    {
        self.index.save_bytes()
    }

    /// Insert a page under its embedding.  A page whose URL is already
    /// stored is left alone and reported as success; a vector that is not
    /// unit-length is rejected; a full node rejects every insert.  The
    /// index grows by `1024` slots whenever it is at capacity.
    pub fn insert(&mut self, url: String, title: String, text: String, embedding: Embedding) -> (r:
        Result<(), SearchError>)
        requires
            old(self).wf(),
            old(self).store.next_id < u64::MAX,
        ensures
            final(self).wf(),
            r matches Err(e) ==> *final(self) == *old(self) && (e == SearchError::CapacityExceeded
                <==> old(self).store.rows_spec().len() >= CAPACITY) && (e
                == SearchError::InvalidVector ==> !embedding_wf(embedding@)),
            old(self).store.rows_spec().len() < CAPACITY && !has_url(
                old(self).store.rows_spec(),
                url@,
            ) && !embedding_wf(embedding@) ==> (r matches Err(e) && e == SearchError::InvalidVector),
            r is Err <==> (old(self).store.rows_spec().len() >= CAPACITY || (!has_url(
                old(self).store.rows_spec(),
                url@,
            ) && !embedding_wf(embedding@))),
            r is Ok && has_url(old(self).store.rows_spec(), url@) ==> *final(self) == *old(self),
            r is Ok && !has_url(old(self).store.rows_spec(), url@) ==> {
                &&& final(self).index.cap as int == (if old(self).index.items_spec().len() == old(
                    self,
                ).index.cap {
                    (old(self).index.items_spec().len() + 1024) as int
                } else {
                    old(self).index.cap as int
                })
                &&& final(self).store.rows_spec().len() == old(self).store.rows_spec().len() + 1
                &&& final(self).store.rows_spec().drop_last() == old(self).store.rows_spec()
                &&& final(self).store.rows_spec().last().url@ == url@
                &&& final(self).store.rows_spec().last().title@ == title@
                &&& final(self).store.rows_spec().last().text@ == text@
                &&& final(self).store.rows_spec().last().embedding@ == embedding@
                &&& final(self).index.items_spec().len() == final(self).store.rows_spec().len()
            },
    {
        if !self.local_space_available() {
            return Err(SearchError::CapacityExceeded);
        }
        if self.store.contains_url(&url) {
            // already stored: nothing to do
            return Ok(());
        }
        if !is_normalized(&embedding) {
            return Err(SearchError::InvalidVector);
        }
        let stored: Embedding = crate::vector::copy_embedding(&embedding);
        let id: u64 = match self.store.insert(url, title, text, stored) {
            Ok(id) => id,
            Err(StoreError::DuplicateUrl) => {
                return Ok(());
            },
        };
        if self.index.size() == self.index.capacity() {
            let size: usize = self.index.size();
            if size > usize::MAX - 1024 {
                // never reached: the index tracks the store, which the page
                // budget keeps far below this
                proof {
                    assert(false);
                }
                return Err(SearchError::CapacityExceeded);
            }
            self.index.reserve(size + 1024);
        }
        proof {
            assert forall|t: int| 0 <= t < self.index.items_spec().len() implies (
            #[trigger] self.index.items_spec()[t]).id < id by {
                assert(self.index.items_spec()[t].id == self.store.rows_spec()[t].id);
                assert(self.store.rows_spec()[t].id < id);
            }
        }
        self.index.add(id, embedding);
        proof {
            let rows = self.store.rows_spec();
            let items = self.index.items_spec();
            assert forall|i: int| 0 <= i < rows.len() implies (#[trigger] items[i]).id == rows[i].id
                && items[i].embedding@ == rows[i].embedding@ by {
                if i < rows.len() - 1 {
                    assert(items[i] == old(self).index.items_spec()[i]);
                    assert(rows[i] == old(self).store.rows_spec()[i]);
                }
            }
        }
        Ok(())
    }

    /// Search the local index for the pages nearest `q`, joined against
    /// the store.  Rejects a vector that is not unit-length.  Returns up to
    /// `SEARCH_K` pages in ascending distance order, each carrying its
    /// stored fields and true distance; `pages_searched` is the number of
    /// indexed pages.
    pub fn search_embedding(&self, q: &Embedding) -> (r: Result<SearchResult, SearchError>)
        requires
            self.wf(),
        ensures
            r is Ok <==> embedding_wf(q@),
            r matches Err(e) ==> e == SearchError::InvalidVector,
            r matches Ok(res) ==> {
                &&& res.pages_searched == self.store.rows_spec().len()
                &&& res.pages@.len() == if SEARCH_K <= self.store.rows_spec().len() {
                    SEARCH_K as int
                } else {
                    self.store.rows_spec().len() as int
                }
                &&& forall|i: int|
                    0 <= i < res.pages@.len() ==> page_from_row(
                        self.store.rows_spec(),
                        q@,
                        #[trigger] res.pages@[i],
                    )
                &&& forall|i: int, j: int|
                    0 <= i <= j < res.pages@.len() ==> (#[trigger] res.pages@[i]).distance <= (
                    #[trigger] res.pages@[j]).distance
                &&& forall|i: int, j: int|
                    0 <= i < j < res.pages@.len() ==> (#[trigger] res.pages@[i]).id != (
                    #[trigger] res.pages@[j]).id
            },
    {
        if !is_normalized(q) {
            return Err(SearchError::InvalidVector);
        }
        let matches: Matches = self.index.search(q, SEARCH_K);
        let ghost rows = self.store.rows_spec();
        let ghost items = self.index.items_spec();
        let ghost qv = q@;
        let mut pages: Vec<FoundPage> = Vec::new();
        let n: usize = matches.ids.len();
        let mut t: usize = 0;
        while t < n
            invariant
                self.wf(),
                rows == self.store.rows_spec(),
                items == self.index.items_spec(),
                qv == q@,
                n == matches.ids@.len(),
                matches.distances@.len() == n,
                forall|i: int| 0 <= i < n ==> result_row_ok(
                    items,
                    qv,
                    #[trigger] matches.ids@[i],
                    matches.distances@[i],
                ),
                forall|i: int, j: int| 0 <= i <= j < n ==> matches.distances@[i]
                    <= matches.distances@[j],
                forall|i: int, j: int| 0 <= i < j < n ==> matches.ids@[i] != matches.ids@[j],
                t <= n,
                pages@.len() == t,
                forall|i: int| 0 <= i < t ==> page_from_row(rows, qv, #[trigger] pages@[i]),
                forall|i: int| 0 <= i < t ==> (#[trigger] pages@[i]).id == matches.ids@[i],
                forall|i: int| 0 <= i < t ==> (#[trigger] pages@[i]).distance
                    == matches.distances@[i],
            decreases n - t,
        {
            let id: u64 = matches.ids[t];
            let dist: u64 = matches.distances[t];
            proof {
                let p = choose|p: int|
                    0 <= p < items.len() && items[p].id == id && dist as int == entry_dist(
                        qv,
                        items[p],
                    );
                assert(rows[p].id == id);
            }
            let row: &Page = match self.store.get(id) {
                Some(row) => row,
                None => {
                    // never reached: every indexed id has its store row
                    proof {
                        assert(false);
                    }
                    return Err(SearchError::PageNotFound);
                },
            };
            proof {
                let p = choose|p: int|
                    0 <= p < items.len() && items[p].id == id && dist as int == entry_dist(
                        qv,
                        items[p],
                    );
                let ri = row_index_of(rows, id);
                assert(rows[ri].id == id);
                if ri < p {
                    assert(rows[ri].id < rows[p].id);
                } else if p < ri {
                    assert(rows[p].id < rows[ri].id);
                }
                assert(ri == p);
                assert(items[p].embedding@ == rows[p].embedding@);
                assert(dist == ip_distance_key(qv, rows[p].embedding@));
            }
            pages.push(
                FoundPage {
                    id,
                    distance: dist,
                    url: row.url.clone(),
                    title: row.title.clone(),
                    text: row.text.clone(),
                },
            );
            t = t + 1;
        }
        Ok(SearchResult { pages, pages_searched: self.store.count() })
    }

    /// The embedding stored for a page.
    pub fn get_embedding(&self, page_id: u64) -> (r: Result<&Embedding, SearchError>)
        requires
            self.wf(),
        ensures
            r is Ok <==> has_page_id(self.store.rows_spec(), page_id),
            r matches Ok(e) ==> embedding_wf(e@) && e@ == self.store.rows_spec()[row_index_of(
                self.store.rows_spec(),
                page_id,
            )].embedding@,
            r matches Err(e) ==> e == SearchError::PageNotFound,
    {
        match self.store.embedding_for(page_id) {
            Some(e) => Ok(e),
            None => Err(SearchError::PageNotFound),
        }
    }

    /// Search for pages like a stored one: the result is exactly a local
    /// search for that page's own embedding.
    pub fn search_like(&self, page_id: u64) -> (r: Result<SearchResult, SearchError>)
        requires
            self.wf(),
        ensures
            r is Ok <==> has_page_id(self.store.rows_spec(), page_id),
            r matches Err(e) ==> e == SearchError::PageNotFound,
            r matches Ok(res) ==> {
                let q = self.store.rows_spec()[row_index_of(
                    self.store.rows_spec(),
                    page_id,
                )].embedding@;
                &&& res.pages_searched == self.store.rows_spec().len()
                &&& res.pages@.len() == (if SEARCH_K <= self.store.rows_spec().len() {
                    SEARCH_K as int
                } else {
                    self.store.rows_spec().len() as int
                })
                &&& forall|i: int|
                    0 <= i < res.pages@.len() ==> page_from_row(
                        self.store.rows_spec(),
                        q,
                        #[trigger] res.pages@[i],
                    )
                &&& forall|i: int, j: int|
                    0 <= i <= j < res.pages@.len() ==> (#[trigger] res.pages@[i]).distance <= (
                    #[trigger] res.pages@[j]).distance
                &&& forall|i: int, j: int|
                    0 <= i < j < res.pages@.len() ==> (#[trigger] res.pages@[i]).id != (
                    #[trigger] res.pages@[j]).id
            },
    {
        let embedding: Embedding = match self.get_embedding(page_id) {
            Ok(e) => crate::vector::copy_embedding(e),
            Err(_) => {
                return Err(SearchError::PageNotFound);
            },
        };
        proof {
            assert(embedding_wf(embedding@));
        }
        match self.search_embedding(&embedding) {
            Ok(r) => Ok(r),
            Err(_) => {
                // never reached: a stored embedding is well-formed
                proof {
                    assert(false);
                }
                Err(SearchError::PageNotFound)
            },
        }
    }

    /// Check every stored row: blob dimension and unit-length.  Reports how
    /// many rows fail each check; the store invariant makes both zero.
    pub fn verify(&self) -> (r: Result<(), (usize, usize)>)
        requires
            self.wf(),
        ensures
            r is Ok,
    {
        let mut wrong_length: usize = 0;
        let mut not_normalized: usize = 0;
        let n: usize = self.store.count();
        let mut i: usize = 0;
        while i < n
            invariant
                self.wf(),
                n == self.store.rows_spec().len(),
                i <= n,
                wrong_length == 0,
                not_normalized == 0,
            decreases n - i,
        {
            let row: &Page = self.store.row_at(i);
            if row.embedding.len() != crate::vector::EM_LEN {
                wrong_length = wrong_length + 1;
            } else if !is_normalized(&row.embedding) {
                not_normalized = not_normalized + 1;
            }
            i = i + 1;
        }
        if wrong_length > 0 || not_normalized > 0 {
            return Err((wrong_length, not_normalized));
        }
        Ok(())
    }
}

} // verus!
