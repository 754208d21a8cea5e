//! The page store: a table of pages keyed by an auto-assigned id, with
//! URL uniqueness and validated embedding blobs.
//!
//! The table itself lives in memory and is the single source of truth for
//! the search provider; persisting rows to disk is the caller's concern.
//! Ids are assigned from a monotone counter and are never reused; every
//! stored embedding is well-formed, so everything read back satisfies the
//! store's integrity invariant.

use vstd::prelude::*;

use crate::vector::{embedding_wf, Embedding};

verus! {

/// Failure inserting into the page store.
#[derive(Debug, Clone, Copy, PartialEq, Eq, Structural)]
pub enum StoreError {
    /// The URL is already present.
    DuplicateUrl,
}

/// One stored page.
pub struct Page {
    pub id: u64,
    pub url: String,
    pub title: String,
    pub text: String,
    pub embedding: Embedding,
}

/// Some row of `s` carries `url`.
pub open spec fn has_url(s: Seq<Page>, url: Seq<char>) -> bool {
    exists|i: int| 0 <= i < s.len() && s[i].url@ == url
}

/// Some row of `s` carries `id`.
pub open spec fn has_page_id(s: Seq<Page>, id: u64) -> bool {
    exists|i: int| 0 <= i < s.len() && s[i].id == id
}

/// The index of the row of `s` carrying `id`.
pub open spec fn row_index_of(s: Seq<Page>, id: u64) -> int {
    choose|i: int| 0 <= i < s.len() && s[i].id == id
}

/// Table of pages with unique URLs, unique monotone ids, and validated
/// embeddings.
pub struct PageStore {
    pub rows: Vec<Page>,
    pub next_id: u64,
}

impl PageStore {
    /// The stored rows, in insertion order.
    pub open spec fn rows_spec(self) -> Seq<Page> {
        self.rows@
    }

    /// Store invariant: URLs unique, ids unique and below the id counter,
    /// ids strictly increasing in insertion order, embeddings well-formed.
    pub open spec fn wf(self) -> bool {
        &&& forall|i: int, j: int|
            0 <= i < j < self.rows@.len() ==> self.rows@[i].url@ != self.rows@[j].url@
        &&& forall|i: int, j: int|
            0 <= i < j < self.rows@.len() ==> self.rows@[i].id < self.rows@[j].id
        &&& forall|i: int| 0 <= i < self.rows@.len() ==> self.rows@[i].id < self.next_id
        &&& forall|i: int| 0 <= i < self.rows@.len() ==> embedding_wf(#[trigger] self.rows@[i].embedding@)
        &&& self.next_id >= 1
    }

    /// An empty store; the first page will get id 1.
    pub fn new() -> (r: PageStore)
        ensures
            r.wf(),
            r.rows_spec().len() == 0,
            r.next_id == 1,
    {
        PageStore { rows: Vec::new(), next_id: 1 }
    }

    /// How many pages are stored.
    pub fn count(&self) -> (r: usize)
        ensures
            r == self.rows_spec().len(),
    {
        self.rows.len()
    }

    /// Whether a page with this URL is stored.
    pub fn contains_url(&self, url: &String) -> (r: bool)
        ensures
            r == has_url(self.rows_spec(), url@),
    {
        let mut i: usize = 0;
        while i < self.rows.len()
            invariant
                i <= self.rows@.len(),
                forall|j: int| 0 <= j < i ==> self.rows@[j].url@ != url@,
            decreases self.rows@.len() - i,
        {
            if self.rows[i].url == *url {
                return true;
            }
            i = i + 1;
        }
        false
    }

    /// Insert a page.  A novel URL is appended under a fresh id (returned);
    /// a duplicate URL is rejected and the store is unchanged.
    pub fn insert(
        &mut self,
        url: String,
        title: String,
        text: String,
        embedding: Embedding,
    ) -> (r: Result<u64, StoreError>)
        requires
            old(self).wf(),
            embedding_wf(embedding@),
            old(self).next_id < u64::MAX,
        ensures
            final(self).wf(),
            r is Ok <==> !has_url(old(self).rows_spec(), url@),
            r matches Err(e) ==> e == StoreError::DuplicateUrl && *final(self) == *old(self),
            r matches Ok(id) ==> {
                &&& id == old(self).next_id
                &&& final(self).next_id == old(self).next_id + 1
                &&& final(self).rows_spec().len() == old(self).rows_spec().len() + 1
                &&& final(self).rows_spec().last().id == id
                &&& final(self).rows_spec().last().url@ == url@
                &&& final(self).rows_spec().last().title@ == title@
                &&& final(self).rows_spec().last().text@ == text@
                &&& final(self).rows_spec().last().embedding@ == embedding@
                &&& final(self).rows_spec().drop_last() == old(self).rows_spec()
            },
    {
        if self.contains_url(&url) {
            return Err(StoreError::DuplicateUrl);
        }
        let id: u64 = self.next_id;
        self.next_id = self.next_id + 1;
        self.rows.push(Page { id, url, title, text, embedding });
        proof {
            assert(self.rows@.drop_last() =~= old(self).rows@);
        }
        Ok(id)
    }

    /// The row carrying `id`, if any.
    pub fn get(&self, id: u64) -> (r: Option<&Page>)
        requires
            self.wf(),
        ensures
            r is Some <==> has_page_id(self.rows_spec(), id),
            r matches Some(p) ==> *p == self.rows_spec()[row_index_of(self.rows_spec(), id)]
                && p.id == id,
    {
        let mut i: usize = 0;
        while i < self.rows.len()
            invariant
                self.wf(),
                i <= self.rows@.len(),
                forall|j: int| 0 <= j < i ==> self.rows@[j].id != id,
            decreases self.rows@.len() - i,
        {
            if self.rows[i].id == id {
                return Some(&self.rows[i]);
            }
            i = i + 1;
        }
        None
    }

    /// The embedding of the row carrying `id`, if any.
    pub fn embedding_for(&self, id: u64) -> (r: Option<&Embedding>)
        requires
            self.wf(),
        ensures
            r is Some <==> has_page_id(self.rows_spec(), id),
            r matches Some(e) ==> e@ == self.rows_spec()[row_index_of(self.rows_spec(), id)].embedding@
                && embedding_wf(e@),
    {
        match self.get(id) {
            Some(p) => Some(&p.embedding),
            None => None,
        }
    }

    /// The row at a given position, for scanning the whole table.
    pub fn row_at(&self, i: usize) -> (r: &Page)
        requires
            i < self.rows_spec().len(),
        ensures
            *r == self.rows_spec()[i as int],
    {
        &self.rows[i]
    }
}

} // verus!
