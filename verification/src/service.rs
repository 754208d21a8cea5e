//! The search service's merge stage: local results and remote replies
//! share one disposable buffer, and a best-K accumulator over buffer
//! positions picks the overall nearest pages.
//!
//! Local pages enter the buffer first, under an empty instance id; each
//! remote page is appended behind them.  Position ids are unique, so the
//! accumulator's dedup is by buffer position, exactly as the fan-out
//! protocol aliases ids.

use vstd::prelude::*;

use crate::best::{sorted_by_distance, BestResults, NodeReference};
use crate::provider::{FoundPage, SearchResult};
use crate::udp::{NetworkSearchResult, PageFromNetwork};

verus! {

/// How many pages a merged result keeps.
pub const MERGE_K: usize = 20;

/// One page of a merged result; an empty instance id means it is local.
pub struct MergedPage {
    pub instance_id: String,
    pub page_id: u64,
    pub distance: u64,
    pub url: String,
    pub title: String,
    pub text: String,
}

/// A merged local-plus-remote search result.
pub struct MergedResult {
    pub pages: Vec<MergedPage>,
    pub pages_searched: u64,
    pub servers_contacted: u64,
}

/// The merged page standing at buffer position `j`: one of the local
/// pages, or one of the remote pages behind them.
pub open spec fn buffer_page_matches(
    local: Seq<FoundPage>,
    remote: Seq<PageFromNetwork>,
    j: int,
    p: MergedPage,
) -> bool {
    if j < local.len() {
        &&& p.instance_id@.len() == 0
        &&& p.page_id == local[j].id
        &&& p.distance == local[j].distance
        &&& p.url@ == local[j].url@
        &&& p.title@ == local[j].title@
        &&& p.text@ == local[j].text@
    } else {
        &&& p.instance_id@ == remote[j - local.len()].instance_id@
        &&& p.page_id == remote[j - local.len()].page_id
        &&& p.distance == remote[j - local.len()].distance
        &&& p.url@ == remote[j - local.len()].url@
        &&& p.title@ == remote[j - local.len()].title@
        &&& p.text@ == remote[j - local.len()].text@
    }
}

/// `p` reports one of the local or remote pages, field for field.
pub open spec fn has_origin(
    local: Seq<FoundPage>,
    remote: Seq<PageFromNetwork>,
    p: MergedPage,
) -> bool {
    exists|j: int| 0 <= j < local.len() + remote.len() && buffer_page_matches(local, remote, j, p)
}

/// The distance of the combined buffer's page at `j`.
pub open spec fn buffer_distance(
    local: Seq<FoundPage>,
    remote: Seq<PageFromNetwork>,
    j: int,
) -> u64 {
    if j < local.len() {
        local[j].distance
    } else {
        remote[j - local.len()].distance
    }
}

/// Some accumulator entry stands for buffer position `p`.
pub open spec fn slot_taken(entries: Seq<NodeReference>, p: int) -> bool {
    exists|m: int| 0 <= m < entries.len() && entries[m].id == p
}

/// Position `p` is accounted for: either the accumulator holds it, or the
/// accumulator is full and `p` lies no nearer than its worst entry.
pub open spec fn position_covered(
    b: BestResults,
    local: Seq<FoundPage>,
    remote: Seq<PageFromNetwork>,
    p: int,
) -> bool {
    slot_taken(b.entries(), p) || (b.is_full() && buffer_distance(local, remote, p)
        >= b.worst_dist_spec())
}

/// `w` certifies `pages` as a best-`k` merge of the combined buffer:
/// pairwise-distinct positions, each reported field for field, and every
/// position left out lies at least as far as the farthest kept page
/// (leaving one out is only possible with `k` pages kept).
pub open spec fn merge_witness(
    local: Seq<FoundPage>,
    remote: Seq<PageFromNetwork>,
    k: int,
    pages: Seq<MergedPage>,
    w: Seq<int>,
) -> bool {
    &&& w.len() == pages.len()
    &&& forall|t: int| 0 <= t < w.len() ==> 0 <= #[trigger] w[t] < local.len() + remote.len()
    &&& forall|t: int|
        0 <= t < w.len() ==> buffer_page_matches(local, remote, #[trigger] w[t], pages[t])
    &&& forall|a: int, b: int| 0 <= a < b < w.len() ==> w[a] != w[b]
    &&& forall|p: int|
        #![trigger w.contains(p)]
        0 <= p < local.len() + remote.len() && !w.contains(p) ==> pages.len() == k
            && buffer_distance(local, remote, p) >= pages.last().distance
}

/// The merge kept exactly the nearest pages of the combined buffer.
pub open spec fn merged_from(
    local: Seq<FoundPage>,
    remote: Seq<PageFromNetwork>,
    k: int,
    pages: Seq<MergedPage>,
) -> bool {
    exists|w: Seq<int>| merge_witness(local, remote, k, pages, w)
}

/// The distance limit a fan-out carries: the worst local distance, so
/// peers need not reply with pages worse than what is already held.
pub fn local_distance_limit(local: &SearchResult) -> (r: Option<u64>)
    ensures
        local.pages@.len() == 0 ==> r is None,
        local.pages@.len() > 0 ==> r == Some(local.pages@.last().distance),
{
    let n: usize = local.pages.len();
    if n == 0 {
        None
    } else {
        Some(local.pages[n - 1].distance)
    }
}

/// Merge a local search result with the remote replies.
///
/// Keeps the `MERGE_K` nearest pages over both sources in ascending
/// distance order; sums the page counts; reports how many peers the
/// fan-out contacted.
pub fn merge_results(local: SearchResult, remote: NetworkSearchResult) -> (r: MergedResult)
    ensures
        r.servers_contacted == remote.servers_contacted,
        r.pages_searched as int == (if local.pages_searched + remote.pages_searched <= u64::MAX {
            local.pages_searched + remote.pages_searched
        } else {
            u64::MAX as int
        }),
        r.pages@.len() == (if MERGE_K <= local.pages@.len() + remote.results@.len() {
            MERGE_K as int
        } else {
            local.pages@.len() + remote.results@.len() as int
        }),
        forall|i: int, j: int|
            0 <= i <= j < r.pages@.len() ==> (#[trigger] r.pages@[i]).distance <= (
            #[trigger] r.pages@[j]).distance,
        forall|i: int|
            0 <= i < r.pages@.len() ==> has_origin(
                local.pages@,
                remote.results@,
                #[trigger] r.pages@[i],
            ),
        merged_from(local.pages@, remote.results@, MERGE_K as int, r.pages@),
    {
        let ghost locals = local.pages@;
        let ghost remotes = remote.results@;
        let mut buffer: Vec<MergedPage> = Vec::new();
        let local_count: usize = local.pages.len();
        let mut lp: Vec<FoundPage> = local.pages;
        let mut t: usize = 0;
        while t < local_count
            invariant
                locals.len() == local_count,
                lp@ == locals,
                t <= local_count,
                buffer@.len() == t,
                forall|j: int| 0 <= j < t ==> buffer_page_matches(
                    locals,
                    remotes,
                    j,
                    #[trigger] buffer@[j],
                ),
            decreases local_count - t,
        {
            let p: &FoundPage = &lp[t];
            buffer.push(
                MergedPage {
                    instance_id: String::new(),
                    page_id: p.id,
                    distance: p.distance,
                    url: p.url.clone(),
                    title: p.title.clone(),
                    text: p.text.clone(),
                },
            );
            t = t + 1;
        }
        let mut rp: Vec<PageFromNetwork> = remote.results;
        let remote_count: usize = rp.len();
        let mut u: usize = 0;
        while u < remote_count
            invariant
                locals.len() == local_count,
                remotes.len() == remote_count,
                rp@ == remotes,
                u <= remote_count,
                buffer@.len() == local_count + u,
                forall|j: int| 0 <= j < local_count + u ==> buffer_page_matches(
                    locals,
                    remotes,
                    j,
                    #[trigger] buffer@[j],
                ),
            decreases remote_count - u,
        {
            let p: &PageFromNetwork = &rp[u];
            buffer.push(
                MergedPage {
                    instance_id: p.instance_id.clone(),
                    page_id: p.page_id,
                    distance: p.distance,
                    url: p.url.clone(),
                    title: p.title.clone(),
                    text: p.text.clone(),
                },
            );
            u = u + 1;
        }
        let n: usize = buffer.len();
        let mut best = BestResults::new(MERGE_K);
        let mut i: usize = 0;
        while i < n
            invariant
                n == buffer@.len(),
                locals.len() == local_count,
                remotes.len() == remote_count,
                n == local_count + remote_count,
                forall|j: int| 0 <= j < n ==> buffer_page_matches(
                    locals,
                    remotes,
                    j,
                    #[trigger] buffer@[j],
                ),
                i <= n,
                best.wf(),
                best.k() == MERGE_K,
                best.entries().len() == if i <= MERGE_K {
                    i as int
                } else {
                    MERGE_K as int
                },
                forall|m: int|
                    0 <= m < best.entries().len() ==> 0 <= (#[trigger] best.entries()[m]).id < i
                        && best.entries()[m].distance == buffer@[best.entries()[m].id as int].distance,
                forall|p: int| 0 <= p < i ==> position_covered(best, locals, remotes, p),
            decreases n - i,
        {
            let d: u64 = buffer[i].distance;
            let ghost pre = best;
            let admitted = best.insert(NodeReference { id: i, distance: d });
            proof {
                assert(!crate::best::has_id(pre.entries(), i)) by {
                    if crate::best::has_id(pre.entries(), i) {
                        let m = choose|m: int|
                            0 <= m < pre.entries().len() && pre.entries()[m].id == i;
                        assert(0 <= pre.entries()[m].id < i);
                    }
                }
                assert forall|m: int| 0 <= m < best.entries().len() implies 0 <= (
                #[trigger] best.entries()[m]).id < i + 1 && best.entries()[m].distance
                    == buffer@[best.entries()[m].id as int].distance by {
                    if admitted && pre.entries().len() < MERGE_K {
                        if m < pre.entries().len() {
                            assert(best.entries()[m] == pre.entries()[m]);
                        }
                    } else if admitted {
                        if m != pre.worst_idx_spec() {
                            assert(best.entries()[m] == pre.entries()[m]);
                        }
                    } else {
                        assert(best.entries()[m] == pre.entries()[m]);
                    }
                }
                assert forall|p: int| 0 <= p < i + 1 implies position_covered(
                    best,
                    locals,
                    remotes,
                    p,
                ) by {
                    assert(buffer_page_matches(locals, remotes, p, buffer@[p]));
                    assert(buffer@[p].distance == buffer_distance(locals, remotes, p));
                    if admitted && pre.entries().len() < MERGE_K {
                        if p < i {
                            assert(position_covered(pre, locals, remotes, p));
                            if slot_taken(pre.entries(), p) {
                                let mm = choose|mm: int|
                                    0 <= mm < pre.entries().len() && pre.entries()[mm].id == p;
                                assert(best.entries()[mm].id == p);
                                assert(slot_taken(best.entries(), p));
                            } else {
                                assert(pre.is_full());
                                assert(false);
                            }
                        } else {
                            assert(best.entries()[best.entries().len() - 1].id == p);
                            assert(slot_taken(best.entries(), p));
                        }
                    } else if admitted {
                        let wi = pre.worst_idx_spec();
                        let gone = pre.entries()[wi];
                        assert(best.entries() == pre.entries().update(
                            wi,
                            NodeReference { id: i, distance: d },
                        ));
                        assert(best.worst_dist_spec() <= pre.worst_dist_spec()) by {
                            let nwi = best.worst_idx_spec();
                            assert(best.entries()[nwi].distance == best.worst_dist_spec());
                            if nwi != wi {
                                assert(best.entries()[nwi] == pre.entries()[nwi]);
                            }
                        }
                        if p == i {
                            assert(best.entries()[wi].id == p);
                            assert(slot_taken(best.entries(), p));
                        } else if p == gone.id {
                            assert(buffer@[gone.id as int].distance == gone.distance);
                            assert(gone.distance == pre.worst_dist_spec());
                        } else {
                            assert(position_covered(pre, locals, remotes, p));
                            if slot_taken(pre.entries(), p) {
                                let mm = choose|mm: int|
                                    0 <= mm < pre.entries().len() && pre.entries()[mm].id == p;
                                assert(mm != wi);
                                assert(best.entries()[mm].id == p);
                                assert(slot_taken(best.entries(), p));
                            }
                        }
                    } else {
                        assert(best.entries() == pre.entries());
                        if p < i {
                            assert(position_covered(pre, locals, remotes, p));
                        } else {
                            assert(pre.entries().len() == MERGE_K);
                            assert(d >= pre.worst_dist_spec());
                        }
                    }
                }
            }
            i = i + 1;
        }
        let ghost pre_sort = best;
        best.sort();
        proof {
            lemma_position_members(pre_sort.entries(), best.entries(), buffer@);
            assert forall|p: int| 0 <= p < n implies position_covered(best, locals, remotes, p) by {
                assert(position_covered(pre_sort, locals, remotes, p));
                if slot_taken(pre_sort.entries(), p) {
                    let mm = choose|mm: int|
                        0 <= mm < pre_sort.entries().len() && pre_sort.entries()[mm].id == p;
                    assert(pre_sort.entries().contains(pre_sort.entries()[mm]));
                    lemma_merge_contains(
                        pre_sort.entries(),
                        best.entries(),
                        pre_sort.entries()[mm],
                    );
                    let jj = choose|jj: int|
                        0 <= jj < best.entries().len() && best.entries()[jj]
                            == pre_sort.entries()[mm];
                    assert(best.entries()[jj].id == p);
                    assert(slot_taken(best.entries(), p));
                } else {
                    assert(pre_sort.is_full());
                    assert(pre_sort.entries().len() == MERGE_K);
                    let wi = pre_sort.worst_idx_spec();
                    assert(pre_sort.entries()[wi].distance == pre_sort.worst_dist_spec());
                    assert(best.worst_dist_spec() <= pre_sort.worst_dist_spec()) by {
                        let li = best.entries().len() - 1;
                        assert(best.entries().contains(best.entries()[li]));
                        lemma_merge_contains(best.entries(), pre_sort.entries(), best.entries()[li]);
                        let oo = choose|oo: int|
                            0 <= oo < pre_sort.entries().len() && pre_sort.entries()[oo]
                                == best.entries()[li];
                        assert(pre_sort.entries()[oo].distance <= pre_sort.worst_dist_spec());
                    }
                    assert(best.is_full());
                    assert(buffer_distance(locals, remotes, p) >= best.worst_dist_spec());
                }
            }
        }
        let m: usize = best.results().len();
        let mut pages: Vec<MergedPage> = Vec::new();
        let ghost mut wits: Seq<int> = Seq::empty();
        let mut k: usize = 0;
        while k < m
            invariant
                n == buffer@.len(),
                locals.len() == local_count,
                remotes.len() == remote_count,
                n == local_count + remote_count,
                forall|j: int| 0 <= j < n ==> buffer_page_matches(
                    locals,
                    remotes,
                    j,
                    #[trigger] buffer@[j],
                ),
                m == best.entries().len(),
                best.k() == MERGE_K,
                k <= m,
                best.wf(),
                sorted_by_distance(best.entries()),
                forall|p: int| 0 <= p < n ==> position_covered(best, locals, remotes, p),
                m > 0 ==> best.worst_dist_spec() == best.entries().last().distance,
                forall|t2: int|
                    0 <= t2 < m ==> 0 <= (#[trigger] best.entries()[t2]).id < n && best.entries()[t2].distance
                        == buffer@[best.entries()[t2].id as int].distance,
                pages@.len() == k,
                forall|t2: int| 0 <= t2 < k ==> (#[trigger] pages@[t2]).distance
                    == best.entries()[t2].distance,
                wits.len() == k,
                forall|t2: int|
                    0 <= t2 < k ==> 0 <= #[trigger] wits[t2] < n && buffer_page_matches(
                        locals,
                        remotes,
                        wits[t2],
                        pages@[t2],
                    ),
                forall|t2: int| 0 <= t2 < k ==> #[trigger] wits[t2] == best.entries()[t2].id as int,
            decreases m - k,
        {
            let nr: NodeReference = best.results()[k];
            let src: &MergedPage = &buffer[nr.id];
            let ghost prev = pages@;
            pages.push(
                MergedPage {
                    instance_id: src.instance_id.clone(),
                    page_id: src.page_id,
                    distance: src.distance,
                    url: src.url.clone(),
                    title: src.title.clone(),
                    text: src.text.clone(),
                },
            );
            proof {
                let j = nr.id as int;
                assert(buffer_page_matches(locals, remotes, j, buffer@[j]));
                assert(buffer_page_matches(locals, remotes, j, pages@[k as int]));
                wits = wits.push(j);
                assert forall|t2: int| 0 <= t2 < k + 1 implies 0 <= #[trigger] wits[t2] < n
                    && buffer_page_matches(locals, remotes, wits[t2], pages@[t2]) by {
                    if t2 < k {
                        assert(pages@[t2] == prev[t2]);
                    }
                }
            }
            k = k + 1;
        }
        let lps: u64 = local.pages_searched as u64;
        let pages_searched: u64 = if lps > u64::MAX - remote.pages_searched {
            u64::MAX
        } else {
            lps + remote.pages_searched
        };
        let result = MergedResult { pages, pages_searched, servers_contacted: remote.servers_contacted };
        proof {
            lemma_pages_have_origin(local.pages@, remote.results@, result.pages@, wits);
            assert(locals == local.pages@ && remotes == remote.results@);
            assert forall|t: int| 0 <= t < wits.len() implies buffer_page_matches(
                local.pages@,
                remote.results@,
                #[trigger] wits[t],
                result.pages@[t],
            ) by {
                assert(result.pages@[t] == pages@[t]);
                assert(buffer_page_matches(locals, remotes, wits[t], pages@[t]));
            }
            assert forall|a: int, b: int| 0 <= a < b < wits.len() implies wits[a] != wits[b] by {
                assert(wits[a] == best.entries()[a].id as int);
                assert(wits[b] == best.entries()[b].id as int);
                assert(best.entries()[a].id != best.entries()[b].id);
            }
            assert forall|p: int|
                #![trigger wits.contains(p)]
                0 <= p < local.pages@.len() + remote.results@.len() && !wits.contains(
                    p,
                ) implies result.pages@.len() == MERGE_K && buffer_distance(
                local.pages@,
                remote.results@,
                p,
            ) >= result.pages@.last().distance by {
                assert(!slot_taken(best.entries(), p)) by {
                    if slot_taken(best.entries(), p) {
                        let mm = choose|mm: int|
                            0 <= mm < best.entries().len() && best.entries()[mm].id == p;
                        assert(wits[mm] == p);
                        assert(wits.contains(p));
                    }
                }
                assert(position_covered(best, locals, remotes, p));
                assert(best.is_full());
                assert(result.pages@.len() == MERGE_K);
                assert(result.pages@.last().distance == best.entries().last().distance);
                assert(buffer_distance(local.pages@, remote.results@, p) == buffer_distance(
                    locals,
                    remotes,
                    p,
                ));
            }
            assert(merge_witness(
                local.pages@,
                remote.results@,
                MERGE_K as int,
                result.pages@,
                wits,
            ));
            assert(merged_from(local.pages@, remote.results@, MERGE_K as int, result.pages@));
        }
        result
    }

proof fn lemma_pages_have_origin(
    local: Seq<FoundPage>,
    remote: Seq<PageFromNetwork>,
    pages: Seq<MergedPage>,
    wits: Seq<int>,
)
    requires
        wits.len() == pages.len(),
        forall|t: int|
            0 <= t < pages.len() ==> 0 <= #[trigger] wits[t] < local.len() + remote.len()
                && buffer_page_matches(local, remote, wits[t], pages[t]),
    ensures
        forall|i: int| 0 <= i < pages.len() ==> has_origin(local, remote, #[trigger] pages[i]),
{
    assert forall|i: int| 0 <= i < pages.len() implies has_origin(
        local,
        remote,
        #[trigger] pages[i],
    ) by {
        assert(0 <= wits[i] < local.len() + remote.len() && buffer_page_matches(
            local,
            remote,
            wits[i],
            pages[i],
        ));
        assert(has_origin(local, remote, pages[i]));
    }
}

proof fn lemma_merge_contains(s1: Seq<NodeReference>, s2: Seq<NodeReference>, x: NodeReference)
    requires
        s1.to_multiset() == s2.to_multiset(),
        s1.contains(x),
    ensures
        s2.contains(x),
{
    s1.to_multiset_ensures();
    s2.to_multiset_ensures();
    assert(s1.to_multiset().count(x) > 0);
    assert(s2.to_multiset().count(x) > 0);
}

proof fn lemma_position_members(s1: Seq<NodeReference>, s2: Seq<NodeReference>, buffer: Seq<MergedPage>)
    requires
        s1.to_multiset() == s2.to_multiset(),
        forall|m: int|
            0 <= m < s1.len() ==> 0 <= (#[trigger] s1[m]).id < buffer.len() && s1[m].distance
                == buffer[s1[m].id as int].distance,
    ensures
        forall|m: int|
            0 <= m < s2.len() ==> 0 <= (#[trigger] s2[m]).id < buffer.len() && s2[m].distance
                == buffer[s2[m].id as int].distance,
{
    assert forall|m: int| 0 <= m < s2.len() implies 0 <= (#[trigger] s2[m]).id < buffer.len()
        && s2[m].distance == buffer[s2[m].id as int].distance by {
        assert(s2.contains(s2[m]));
        lemma_merge_contains(s2, s1, s2[m]);
        let j = choose|j: int| 0 <= j < s1.len() && s1[j] == s2[m];
        assert(0 <= s1[j].id < buffer.len());
    }
}

} // verus!
