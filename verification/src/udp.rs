//! The UDP service as a state machine: the peer table, the registry of
//! active searches, and the announce/tick timers.
//!
//! The surrounding event loop owns the socket, the clock and the random
//! numbers; it feeds each incoming datagram and each command into these
//! transition functions and performs the actions they return.  Every rule
//! of the protocol — the loop guard on searches, dropping replicated
//! inserts unless enabled, the fan-out deadline, pruning stale peers,
//! replication to at most three accepting peers — lives here, verified.

use vstd::prelude::*;

use crate::codec::{from_i24_bytes, i24_bytes_of, i24_decoded, to_i24_bytes};
use crate::page_source::ExtractedPage;
use crate::provider::FoundPage;
use crate::smaz::{smaz_accepts, smaz_decompress, smaz_panic_free, unsmaz_of};
use crate::vector::{embedding_wf, Embedding, EM_LEN};
use crate::wire::{
    dec_msg, decode_message, enc_msg, encode_message, msg_wf, str_fits, MsgView, PeerInfo,
    UdpMessage,
};
use vstd::string::StringSliceAdditionalSpecFns;
use vstd::utf8::encode_utf8;

verus! {

/// How long a fan-out search waits for replies, in milliseconds.
pub const SEARCH_DEADLINE_MS: u64 = 200;

/// A peer is dropped after this many seconds without an announce.
pub const PEER_EXPIRY_SECS: u64 = 300;

/// How many accepting peers a page is replicated to.
pub const INSERT_FANOUT: usize = 3;

/// Largest datagram the protocol may send.
pub const MAX_DATAGRAM: usize = 1472;

/// A page another node reported for one of our searches.
pub struct PageFromNetwork {
    pub instance_id: String,
    pub page_id: u64,
    pub distance: u64,
    pub url: String,
    pub title: String,
    pub text: String,
}

/// What a completed fan-out search delivers.
pub struct NetworkSearchResult {
    pub results: Vec<PageFromNetwork>,
    pub servers_contacted: u64,
    pub servers_responded: u64,
    pub pages_searched: u64,
}

/// One search we have fanned out and are collecting replies for.
pub struct ActiveSearch {
    pub search_id: u64,
    pub deadline: u64,
    pub sink: u64,
    pub results: Vec<PageFromNetwork>,
    pub servers_contacted: u64,
    pub servers_responded: u64,
    pub pages_searched: u64,
}

/// One outstanding embedding request to a peer.
pub struct ActiveGetEmbedding {
    pub search_id: u64,
    pub sink: u64,
}

/// What the event loop must do after a transition.
pub enum UdpAction {
    /// Send a datagram.
    Send { addr: String, data: Vec<u8> },
    /// Run a local-only search for a remote peer and answer it.
    LocalSearch { search_id: u64, reply_addr: String, distance_limit: Option<u64>, embedding: Embedding },
    /// Hand a replicated page to the search service.
    DeliverInsert { page: ExtractedPage },
    /// Look up a stored embedding for a remote peer and answer it.
    FetchEmbedding { search_id: u64, reply_addr: String, page_id: u64 },
    /// Wake the caller of a finished fan-out search.
    CompleteSearch { sink: u64, result: NetworkSearchResult },
    /// Hand a fetched embedding to the caller that asked for it.
    DeliverEmbedding { sink: u64, embedding: Embedding },
}

/// Some active search carries `id`.
pub open spec fn has_search(s: Seq<ActiveSearch>, id: u64) -> bool {
    exists|i: int| 0 <= i < s.len() && s[i].search_id == id
}

/// The index of the active search carrying `id`.
pub open spec fn search_index_of(s: Seq<ActiveSearch>, id: u64) -> int {
    choose|i: int| 0 <= i < s.len() && s[i].search_id == id
}

/// Some outstanding embedding request carries `id`.
pub open spec fn has_ge(s: Seq<ActiveGetEmbedding>, id: u64) -> bool {
    exists|i: int| 0 <= i < s.len() && s[i].search_id == id
}

/// Some known peer carries `instance`.
pub open spec fn has_peer(peers: Seq<PeerInfo>, instance: Seq<char>) -> bool {
    exists|i: int| 0 <= i < peers.len() && peers[i].instance_id@ == instance
}

/// The position of the first known peer carrying `instance`.
pub open spec fn peer_index_of(peers: Seq<PeerInfo>, instance: Seq<char>) -> int
    decreases peers.len(),
{
    if peers.len() == 0 {
        0
    } else if peers.first().instance_id@ == instance {
        0
    } else {
        1 + peer_index_of(peers.drop_first(), instance)
    }
}

/// A replicated text field is usable: the decompressor takes it, accepts
/// it, and the result is valid UTF-8.
pub open spec fn insert_field_ok(data: Seq<u8>) -> bool {
    &&& smaz_panic_free(data)
    &&& unsmaz_of(data) is Some
    &&& vstd::utf8::valid_utf8(unsmaz_of(data)->0)
}

/// The characters a usable replicated text field decompresses to.
pub open spec fn insert_field_text(data: Seq<u8>) -> Seq<char> {
    vstd::utf8::decode_utf8(unsmaz_of(data)->0)
}

/// The text a reply carries: the page's text cut to its longest character
/// boundary within 500 bytes.
pub open spec fn reply_text(text: Seq<char>) -> Seq<char> {
    let bs = encode_utf8(text);
    if bs.len() <= 500 {
        text
    } else {
        vstd::utf8::decode_utf8(bs.subrange(0, crate::util::boundary_at_or_below(bs, 500)))
    }
}

/// The `Page` message that answers `search_id` with `p`.
pub open spec fn page_reply(my_id: Seq<char>, search_id: u64, p: FoundPage) -> MsgView {
    MsgView::Page {
        search_id,
        page_id: p.id,
        distance: p.distance,
        url: p.url@,
        title: p.title@,
        text: reply_text(p.text@),
        instance_id: my_id,
    }
}

/// Whether `p` is answered: inside the sender's limit, and small enough
/// for one datagram.
pub open spec fn page_answerable(
    my_id: Seq<char>,
    search_id: u64,
    distance_limit: Option<u64>,
    p: FoundPage,
) -> bool {
    &&& (distance_limit matches Some(d) ==> p.distance < d)
    &&& str_fits(p.url@)
    &&& str_fits(p.title@)
    &&& enc_msg(page_reply(my_id, search_id, p)).len() <= MAX_DATAGRAM
}

/// Some reported page came from `instance`.
pub open spec fn results_have_instance(rs: Seq<PageFromNetwork>, instance: Seq<char>) -> bool {
    exists|i: int| 0 <= i < rs.len() && rs[i].instance_id@ == instance
}


/// The positions of the peers that accept replicated pages, ascending.
pub open spec fn accepting_indices(peers: Seq<PeerInfo>) -> Seq<int>
    decreases peers.len(),
{
    if peers.len() == 0 {
        Seq::empty()
    } else {
        accepting_indices(peers.drop_last()) + if peers.last().accept_insert {
            seq![peers.len() - 1]
        } else {
            Seq::empty()
        }
    }
}

/// The position of the `k`-th replication target: the accepting peers are
/// walked round-robin from a random start.
pub open spec fn chosen_target(peers: Seq<PeerInfo>, rand: u64, k: int) -> int {
    let acc = accepting_indices(peers);
    acc[((rand as int % acc.len() as int) + k) % acc.len() as int]
}

/// Accepting positions are in range, marked accepting, and strictly
/// ascending.
pub proof fn lemma_accepting_indices(peers: Seq<PeerInfo>)
    ensures
        accepting_indices(peers).len() <= peers.len(),
        forall|t: int|
            0 <= t < accepting_indices(peers).len() ==> {
                &&& 0 <= #[trigger] accepting_indices(peers)[t] < peers.len()
                &&& peers[accepting_indices(peers)[t]].accept_insert
            },
        forall|a: int, b: int|
            0 <= a < b < accepting_indices(peers).len() ==> accepting_indices(peers)[a]
                < accepting_indices(peers)[b],
    decreases peers.len(),
{
    if peers.len() > 0 {
        lemma_accepting_indices(peers.drop_last());
        let pre = accepting_indices(peers.drop_last());
        assert forall|t: int| 0 <= t < accepting_indices(peers).len() implies {
            &&& 0 <= #[trigger] accepting_indices(peers)[t] < peers.len()
            &&& peers[accepting_indices(peers)[t]].accept_insert
        } by {
            if t < pre.len() {
                assert(accepting_indices(peers)[t] == pre[t]);
                assert(peers.drop_last()[pre[t]] == peers[pre[t]]);
            } else {
                assert(accepting_indices(peers)[t] == peers.len() - 1);
            }
        }
        assert forall|a: int, b: int|
            0 <= a < b < accepting_indices(peers).len() implies accepting_indices(peers)[a]
            < accepting_indices(peers)[b] by {
            if b < pre.len() {
                assert(accepting_indices(peers)[a] == pre[a]);
                assert(accepting_indices(peers)[b] == pre[b]);
            } else {
                assert(accepting_indices(peers)[a] == pre[a]);
                assert(accepting_indices(peers)[b] == peers.len() - 1);
            }
        }
    }
}

/// The replication targets of one insert are pairwise distinct peers.
pub proof fn lemma_insert_targets_distinct(peers: Seq<PeerInfo>, rand: u64, k1: int, k2: int)
    requires
        0 <= k1 < k2,
        k2 < accepting_indices(peers).len() || k2 < INSERT_FANOUT,
        k2 < accepting_indices(peers).len(),
    ensures
        chosen_target(peers, rand, k1) != chosen_target(peers, rand, k2),
{
    lemma_accepting_indices(peers);
    let c = accepting_indices(peers).len() as int;
    let st = rand as int % c;
    vstd::arithmetic::div_mod::lemma_mod_bound(rand as int, c);
    let p1 = (st + k1) % c;
    let p2 = (st + k2) % c;
    vstd::arithmetic::div_mod::lemma_fundamental_div_mod(st + k1, c);
    vstd::arithmetic::div_mod::lemma_fundamental_div_mod(st + k2, c);
    vstd::arithmetic::div_mod::lemma_mod_bound(st + k1, c);
    vstd::arithmetic::div_mod::lemma_mod_bound(st + k2, c);
    if p1 == p2 {
        let q1 = (st + k1) / c;
        let q2 = (st + k2) / c;
        assert(k2 - k1 == (q2 - q1) * c) by (nonlinear_arith)
            requires
                st + k1 == q1 * c + p1,
                st + k2 == q2 * c + p2,
                p1 == p2,
        ;
        assert((q2 - q1) * c >= c || (q2 - q1) * c <= 0) by (nonlinear_arith)
            requires
                c > 0,
        ;
        assert(false);
    }
}

/// The sum of the pages every peer last reported, unbounded.
pub open spec fn pages_sum(peers: Seq<PeerInfo>) -> int
    decreases peers.len(),
{
    if peers.len() == 0 {
        0
    } else {
        pages_sum(peers.drop_last()) + peers.last().pages_indexed
    }
}

/// The completion an expired search delivers.
pub open spec fn complete_of(s: ActiveSearch) -> UdpAction {
    UdpAction::CompleteSearch {
        sink: s.sink,
        result: NetworkSearchResult {
            results: s.results,
            servers_contacted: s.servers_contacted,
            servers_responded: s.servers_responded,
            pages_searched: s.pages_searched,
        },
    }
}

/// The UDP service's state between events.
pub struct UdpService {
    pub my_id: String,
    pub accept_insert: bool,
    pub known_peers: Vec<PeerInfo>,
    pub active_searches: Vec<ActiveSearch>,
    pub active_get_embeddings: Vec<ActiveGetEmbedding>,
}

impl UdpService {
    /// Service invariant: ids of registered searches and embedding
    /// requests are distinct, and the node's own id fits the wire.
    pub open spec fn wf(self) -> bool {
        &&& forall|i: int, j: int|
            0 <= i < j < self.active_searches@.len() ==> self.active_searches@[i].search_id
                != self.active_searches@[j].search_id
        &&& forall|i: int, j: int|
            0 <= i < j < self.active_get_embeddings@.len()
                ==> self.active_get_embeddings@[i].search_id
                != self.active_get_embeddings@[j].search_id
        &&& str_fits(self.my_id@)
    }

    /// A fresh service with no peers and no active work.
    pub fn new(my_id: String, accept_insert: bool) -> (r: UdpService)
        requires
            my_id@.len() <= 64,
        ensures
            r.wf(),
            r.my_id == my_id,
            r.accept_insert == accept_insert,
            r.known_peers@.len() == 0,
            r.active_searches@.len() == 0,
            r.active_get_embeddings@.len() == 0,
    {
        proof {
            crate::util::lemma_encode_utf8_len_bound(my_id@);
        }
        UdpService {
            my_id,
            accept_insert,
            known_peers: Vec::new(),
            active_searches: Vec::new(),
            active_get_embeddings: Vec::new(),
        }
    }

    fn find_search(&self, id: u64) -> (r: Option<usize>)
        requires
            self.wf(),
        ensures
            r is Some <==> has_search(self.active_searches@, id),
            r matches Some(i) ==> i == search_index_of(self.active_searches@, id) && i
                < self.active_searches@.len() && self.active_searches@[i as int].search_id == id,
    {
        let n: usize = self.active_searches.len();
        let mut i: usize = 0;
        while i < n
            invariant
                self.wf(),
                n == self.active_searches@.len(),
                i <= n,
                forall|j: int| 0 <= j < i ==> self.active_searches@[j].search_id != id,
            decreases n - i,
        {
            if self.active_searches[i].search_id == id {
                proof {
                    assert(has_search(self.active_searches@, id));
                    let w = search_index_of(self.active_searches@, id);
                    assert(0 <= w < self.active_searches@.len() && self.active_searches@[w].search_id
                        == id);
                    if w < i {
                        assert(self.active_searches@[w].search_id != id);
                    } else if w > i {
                        assert(self.active_searches@[i as int].search_id
                            != self.active_searches@[w].search_id);
                    }
                }
                return Some(i);
            }
            i = i + 1;
        }
        None
    }

    fn find_ge(&self, id: u64) -> (r: Option<usize>)
        ensures
            r is Some <==> has_ge(self.active_get_embeddings@, id),
            r matches Some(i) ==> i < self.active_get_embeddings@.len()
                && self.active_get_embeddings@[i as int].search_id == id,
    {
        let n: usize = self.active_get_embeddings.len();
        let mut i: usize = 0;
        while i < n
            invariant
                n == self.active_get_embeddings@.len(),
                i <= n,
                forall|j: int| 0 <= j < i ==> self.active_get_embeddings@[j].search_id != id,
            decreases n - i,
        {
            if self.active_get_embeddings[i].search_id == id {
                return Some(i);
            }
            i = i + 1;
        }
        None
    }

    /// React to one incoming datagram.
    ///
    /// A datagram that does not decode is dropped.  A `Search` we sent
    /// ourselves (its id is already registered) is dropped.  An `Insert`
    /// is dropped unless this node accepts them.  `Peers` replaces the
    /// peer table.  `Announce` is not for nodes and is ignored.
    pub fn handle_packet(&mut self, from: &String, data: &Vec<u8>, now: u64) -> (r: Vec<UdpAction>)
        requires
            old(self).wf(),
        ensures
            final(self).wf(),
            final(self).my_id == old(self).my_id,
            final(self).accept_insert == old(self).accept_insert,
            dec_msg(data@) is None ==> *final(self) == *old(self) && r@.len() == 0,
            dec_msg(data@) matches Some(MsgView::Announce { .. }) ==> *final(self) == *old(self)
                && r@.len() == 0,
            dec_msg(data@) matches Some(MsgView::Insert { .. }) && !old(self).accept_insert
                ==> *final(self) == *old(self) && r@.len() == 0,
            dec_msg(data@) matches Some(MsgView::Insert { url_smaz, title_smaz, text_smaz }) ==> {
                &&& *final(self) == *old(self)
                &&& (old(self).accept_insert && insert_field_ok(url_smaz) && insert_field_ok(
                    title_smaz,
                ) && insert_field_ok(text_smaz) ==> r@.len() == 1 && (r@[0] matches UdpAction::DeliverInsert {
                    page,
                } && page.url@ == insert_field_text(url_smaz) && page.title@ == insert_field_text(
                    title_smaz,
                ) && page.text@ == insert_field_text(text_smaz) && page.combined@
                    == insert_field_text(title_smaz) + " "@ + insert_field_text(text_smaz)))
                &&& (old(self).accept_insert && !(insert_field_ok(url_smaz) && insert_field_ok(
                    title_smaz,
                ) && insert_field_ok(text_smaz)) ==> r@.len() == 0)
            },
            dec_msg(data@) matches Some(MsgView::Search { search_id, distance_limit, embedding })
                ==> {
                &&& *final(self) == *old(self)
                &&& (!has_search(old(self).active_searches@, search_id) && embedding.len() == 3
                    * EM_LEN && embedding_wf(i24_decoded(embedding)) ==> r@.len() == 1 && (r@[0] matches UdpAction::LocalSearch {
                    search_id: sid,
                    reply_addr,
                    distance_limit: dl,
                    embedding: em,
                } && sid == search_id && reply_addr@ == from@ && dl == distance_limit && em@
                    == i24_decoded(embedding)))
                &&& (has_search(old(self).active_searches@, search_id) || !(embedding.len() == 3
                    * EM_LEN && embedding_wf(i24_decoded(embedding))) ==> r@.len() == 0)
            },
            dec_msg(data@) matches Some(MsgView::Peers { peers }) ==> r@.len() == 0 && final(self).known_peers@.len() == peers.len() && (forall|i: int|
                0 <= i < peers.len() ==> (#[trigger] final(self).known_peers@[i])@ == peers[i])
                && final(self).active_searches == old(self).active_searches && final(self).active_get_embeddings == old(self).active_get_embeddings,
            dec_msg(data@) matches Some(MsgView::Page {
                search_id,
                page_id,
                distance,
                url,
                title,
                text,
                instance_id,
            }) ==> r@.len() == 0 && final(self).known_peers == old(self).known_peers && final(self).active_get_embeddings == old(self).active_get_embeddings && (!has_search(
                old(self).active_searches@,
                search_id,
            ) ==> *final(self) == *old(self)) && (has_search(old(self).active_searches@, search_id)
                ==> {
                let idx = search_index_of(old(self).active_searches@, search_id);
                let before = old(self).active_searches@[idx];
                let after = final(self).active_searches@[idx];
                &&& final(self).active_searches@.len() == old(self).active_searches@.len()
                &&& (forall|t: int|
                    0 <= t < old(self).active_searches@.len() && t != idx
                        ==> #[trigger] final(self).active_searches@[t] == old(self).active_searches@[t])
                &&& after.search_id == before.search_id
                &&& after.deadline == before.deadline
                &&& after.sink == before.sink
                &&& after.servers_contacted == before.servers_contacted
                &&& after.pages_searched == before.pages_searched
                &&& after.results@.len() == before.results@.len() + 1
                &&& after.results@.drop_last() == before.results@
                &&& after.results@.last().instance_id@ == instance_id
                &&& after.results@.last().page_id == page_id
                &&& after.results@.last().distance == distance
                &&& after.results@.last().url@ == url
                &&& after.results@.last().title@ == title
                &&& after.results@.last().text@ == text
                &&& after.servers_responded == (if !results_have_instance(
                    before.results@,
                    instance_id,
                ) && before.servers_responded < u64::MAX {
                    before.servers_responded + 1
                } else {
                    before.servers_responded as int
                })
            }),
            dec_msg(data@) matches Some(MsgView::GetEmbedding { search_id, page_id }) ==> *final(self) == *old(self) && r@.len() == 1 && (r@[0] matches UdpAction::FetchEmbedding {
                search_id: sid,
                reply_addr,
                page_id: pid,
            } && sid == search_id && reply_addr@ == from@ && pid == page_id),
            dec_msg(data@) matches Some(MsgView::Embedding { search_id, embedding }) ==> final(self).known_peers == old(self).known_peers && final(self).active_searches == old(self).active_searches && (!has_ge(old(self).active_get_embeddings@, search_id) ==> *final(self) == *old(self) && r@.len() == 0) && (has_ge(old(self).active_get_embeddings@, search_id)
                ==> final(self).active_get_embeddings@.len() == old(self).active_get_embeddings@.len() - 1 && (if embedding.len() == 3 * EM_LEN
                && embedding_wf(i24_decoded(embedding)) {
                r@.len() == 1 && (r@[0] matches UdpAction::DeliverEmbedding { sink, embedding: em }
                    && em@ == i24_decoded(embedding))
            } else {
                r@.len() == 0
            })),
    {
        let m: UdpMessage = match decode_message(data) {
            Some(m) => m,
            None => {
                return Vec::new();
            },
        };
        match m {
            UdpMessage::Search { search_id, distance_limit, embedding } => {
                if self.find_search(search_id).is_some() {
                    // we sent this search ourselves; do not answer it
                    return Vec::new();
                }
                let em: Embedding = match from_i24_bytes(&embedding) {
                    Ok(e) => e,
                    Err(_) => {
                        return Vec::new();
                    },
                };
                let mut r: Vec<UdpAction> = Vec::new();
                r.push(
                    UdpAction::LocalSearch {
                        search_id,
                        reply_addr: from.clone(),
                        distance_limit,
                        embedding: em,
                    },
                );
                r
            },
            UdpMessage::Peers { peers } => {
                self.known_peers = peers;
                Vec::new()
            },
            UdpMessage::Page { search_id, page_id, distance, url, title, text, instance_id } => {
                let idx: usize = match self.find_search(search_id) {
                    Some(i) => i,
                    None => {
                        return Vec::new();
                    },
                };
                let mut entry: ActiveSearch = self.active_searches.remove(idx);
                let novel: bool = !results_contain_instance(&entry.results, &instance_id);
                if novel && entry.servers_responded < u64::MAX {
                    entry.servers_responded = entry.servers_responded + 1;
                }
                entry.results.push(
                    PageFromNetwork { instance_id, page_id, distance, url, title, text },
                );
                self.active_searches.insert(idx, entry);
                proof {
                    assert(self.active_searches@[idx as int].results@.drop_last() =~= old(self).active_searches@[idx as int].results@);
                    assert(self.active_searches@ =~= old(self).active_searches@.update(
                        idx as int,
                        self.active_searches@[idx as int],
                    ));
                    assert forall|i: int, j: int|
                        0 <= i < j < self.active_searches@.len() implies self.active_searches@[i].search_id
                        != self.active_searches@[j].search_id by {
                        assert(old(self).active_searches@[i].search_id != old(self).active_searches@[j].search_id);
                        assert(self.active_searches@[idx as int].search_id == old(self).active_searches@[idx as int].search_id);
                    }
                }
                Vec::new()
            },
            UdpMessage::Insert { url_smaz, title_smaz, text_smaz } => {
                if !self.accept_insert {
                    return Vec::new();
                }
                let url: String = match decompress_text(&url_smaz) {
                    Some(s) => s,
                    None => {
                        return Vec::new();
                    },
                };
                let title: String = match decompress_text(&title_smaz) {
                    Some(s) => s,
                    None => {
                        return Vec::new();
                    },
                };
                let text: String = match decompress_text(&text_smaz) {
                    Some(s) => s,
                    None => {
                        return Vec::new();
                    },
                };
                let mut combined: String = title.clone();
                combined.append(" ");
                combined.append(text.as_str());
                let mut r: Vec<UdpAction> = Vec::new();
                r.push(
                    UdpAction::DeliverInsert { page: ExtractedPage { url, title, text, combined } },
                );
                r
            },
            UdpMessage::Announce { .. } => Vec::new(),
            UdpMessage::GetEmbedding { search_id, page_id } => {
                let mut r: Vec<UdpAction> = Vec::new();
                r.push(
                    UdpAction::FetchEmbedding { search_id, reply_addr: from.clone(), page_id },
                );
                r
            },
            UdpMessage::Embedding { search_id, embedding } => {
                let idx: usize = match self.find_ge(search_id) {
                    Some(i) => i,
                    None => {
                        return Vec::new();
                    },
                };
                let entry: ActiveGetEmbedding = self.active_get_embeddings.remove(idx);
                proof {
                    assert forall|i: int, j: int|
                        0 <= i < j < self.active_get_embeddings@.len() implies self.active_get_embeddings@[i].search_id
                        != self.active_get_embeddings@[j].search_id by {
                        assert(self.active_get_embeddings@[i] == if i < idx {
                            old(self).active_get_embeddings@[i]
                        } else {
                            old(self).active_get_embeddings@[i + 1]
                        });
                        assert(self.active_get_embeddings@[j] == if j < idx {
                            old(self).active_get_embeddings@[j]
                        } else {
                            old(self).active_get_embeddings@[j + 1]
                        });
                    }
                }
                let em: Embedding = match from_i24_bytes(&embedding) {
                    Ok(e) => e,
                    Err(_) => {
                        return Vec::new();
                    },
                };
                let mut r: Vec<UdpAction> = Vec::new();
                r.push(UdpAction::DeliverEmbedding { sink: entry.sink, embedding: em });
                r
            },
        }
    }


    /// Register a fan-out search and produce one `Search` datagram per
    /// known peer.
    ///
    /// The deadline is `now` itself when no peer is known, so the next
    /// tick completes the search at once with only local results.  Each
    /// contacted peer's last-reported page count is credited up front.
    /// A colliding id leaves the state alone: the caller draws a fresh
    /// random id and retries.
    pub fn start_search(
        &mut self,
        embedding: &Embedding,
        distance_limit: Option<u64>,
        sink: u64,
        search_id: u64,
        now: u64,
    ) -> (r: Vec<UdpAction>)
        requires
            old(self).wf(),
            embedding_wf(embedding@),
            now <= u64::MAX - SEARCH_DEADLINE_MS,
        ensures
            final(self).wf(),
            final(self).my_id == old(self).my_id,
            final(self).accept_insert == old(self).accept_insert,
            final(self).known_peers == old(self).known_peers,
            final(self).active_get_embeddings == old(self).active_get_embeddings,
            has_search(old(self).active_searches@, search_id) ==> *final(self) == *old(self)
                && r@.len() == 0,
            !has_search(old(self).active_searches@, search_id) ==> {
                &&& final(self).active_searches@.len() == old(self).active_searches@.len() + 1
                &&& final(self).active_searches@.drop_last() == old(self).active_searches@
                &&& final(self).active_searches@.last().search_id == search_id
                &&& final(self).active_searches@.last().sink == sink
                &&& final(self).active_searches@.last().deadline == (if old(self).known_peers@.len()
                    > 0 {
                    now + SEARCH_DEADLINE_MS
                } else {
                    now as int
                })
                &&& final(self).active_searches@.last().results@.len() == 0
                &&& final(self).active_searches@.last().servers_contacted == old(self).known_peers@.len()
                &&& final(self).active_searches@.last().servers_responded == 0
                &&& final(self).active_searches@.last().pages_searched as int == (if pages_sum(
                    old(self).known_peers@,
                ) <= u64::MAX {
                    pages_sum(old(self).known_peers@)
                } else {
                    u64::MAX as int
                })
                &&& r@.len() == old(self).known_peers@.len()
                &&& forall|i: int|
                    0 <= i < r@.len() ==> (#[trigger] r@[i] matches UdpAction::Send { addr, data }
                        && addr@ == old(self).known_peers@[i].addr@ && data@ == enc_msg(
                        MsgView::Search {
                            search_id,
                            distance_limit,
                            embedding: i24_bytes_of(embedding@),
                        },
                    ))
            },
    {
        if self.find_search(search_id).is_some() {
            return Vec::new();
        }
        let n: usize = self.known_peers.len();
        let deadline: u64 = if n > 0 {
            now + SEARCH_DEADLINE_MS
        } else {
            now
        };
        let m = UdpMessage::Search {
            search_id,
            distance_limit,
            embedding: to_i24_bytes(embedding),
        };
        let ghost mv = MsgView::Search {
            search_id,
            distance_limit,
            embedding: i24_bytes_of(embedding@),
        };
        let mut r: Vec<UdpAction> = Vec::new();
        let mut pages: u64 = 0;
        let mut i: usize = 0;
        while i < n
            invariant
                self.wf(),
                *self == *old(self),
                n == self.known_peers@.len(),
                i <= n,
                m@ == mv,
                msg_wf(mv),
                r@.len() == i,
                pages as int == (if pages_sum(self.known_peers@.take(i as int)) <= u64::MAX {
                    pages_sum(self.known_peers@.take(i as int))
                } else {
                    u64::MAX as int
                }),
                forall|t: int|
                    0 <= t < i ==> (#[trigger] r@[t] matches UdpAction::Send { addr, data } && addr@
                        == self.known_peers@[t].addr@ && data@ == enc_msg(mv)),
            decreases n - i,
        {
            let p: u64 = self.known_peers[i].pages_indexed;
            proof {
                assert(self.known_peers@.take(i + 1).drop_last() =~= self.known_peers@.take(
                    i as int,
                ));
                assert(self.known_peers@.take(i + 1).last() == self.known_peers@[i as int]);
                lemma_pages_sum_nonneg(self.known_peers@.take(i as int));
            }
            pages = if pages > u64::MAX - p {
                u64::MAX
            } else {
                pages + p
            };
            let data: Vec<u8> = encode_message(&m);
            r.push(UdpAction::Send { addr: self.known_peers[i].addr.clone(), data });
            i = i + 1;
        }
        proof {
            assert(self.known_peers@.take(n as int) =~= self.known_peers@);
        }
        let contacted: u64 = n as u64;
        self.active_searches.push(
            ActiveSearch {
                search_id,
                deadline,
                sink,
                results: Vec::new(),
                servers_contacted: contacted,
                servers_responded: 0,
                pages_searched: pages,
            },
        );
        proof {
            assert(self.active_searches@.drop_last() =~= old(self).active_searches@);
            assert forall|a: int, b: int|
                0 <= a < b < self.active_searches@.len() implies self.active_searches@[a].search_id
                != self.active_searches@[b].search_id by {
                if b < self.active_searches@.len() - 1 {
                    assert(self.active_searches@[a] == old(self).active_searches@[a]);
                    assert(self.active_searches@[b] == old(self).active_searches@[b]);
                } else {
                    assert(self.active_searches@[a] == old(self).active_searches@[a]);
                    assert(!has_search(old(self).active_searches@, search_id));
                }
            }
        }
        r
    }

    /// Advance time: complete every search whose deadline (a millisecond
    /// instant) has passed, in registration order, and drop peers not
    /// heard from for more than `PEER_EXPIRY_SECS` (their `last_seen` is a
    /// unix-second timestamp, so the two clocks are taken separately).
    pub fn tick(&mut self, now_millis: u64, now_secs: u64) -> (r: Vec<UdpAction>)
        requires
            old(self).wf(),
        ensures
            final(self).wf(),
            final(self).my_id == old(self).my_id,
            final(self).accept_insert == old(self).accept_insert,
            final(self).active_get_embeddings == old(self).active_get_embeddings,
            final(self).known_peers@ == old(self).known_peers@.filter(
                |p: PeerInfo| p.last_seen + PEER_EXPIRY_SECS >= now_secs,
            ),
            final(self).active_searches@ == old(self).active_searches@.filter(
                |s: ActiveSearch| !(s.deadline < now_millis),
            ),
            r@ == old(self).active_searches@.filter(
                |s: ActiveSearch| s.deadline < now_millis,
            ).map_values(|s: ActiveSearch| complete_of(s)),
    {
        proof {
            reveal(Seq::filter);
        }
        let ghost orig = self.active_searches@;
        let ghost keep_pred = |s: ActiveSearch| !(s.deadline < now_millis);
        let ghost exp_pred = |s: ActiveSearch| s.deadline < now_millis;
        let n: usize = self.active_searches.len();
        let mut kept: Vec<ActiveSearch> = Vec::new();
        let mut r: Vec<UdpAction> = Vec::new();
        let mut i: usize = 0;
        while i < n
            invariant
                self.my_id == old(self).my_id,
                self.accept_insert == old(self).accept_insert,
                self.active_get_embeddings == old(self).active_get_embeddings,
                self.known_peers == old(self).known_peers,
                str_fits(self.my_id@),
                n == orig.len(),
                i <= n,
                self.active_searches@ == orig.skip(i as int),
                kept@ == orig.take(i as int).filter(keep_pred),
                r@ == orig.take(i as int).filter(exp_pred).map_values(
                    |s: ActiveSearch| complete_of(s),
                ),
                keep_pred == (|s: ActiveSearch| !(s.deadline < now_millis)),
                exp_pred == (|s: ActiveSearch| s.deadline < now_millis),
            decreases n - i,
        {
            let e: ActiveSearch = self.active_searches.remove(0);
            proof {
                reveal(Seq::filter);
                assert(e == orig[i as int]);
                assert(orig.skip(i as int).skip(1) =~= orig.skip(i + 1));
                assert(orig.take(i + 1).drop_last() =~= orig.take(i as int));
                assert(orig.take(i + 1).last() == orig[i as int]);
            }
            if e.deadline < now_millis {
                let sink: u64 = e.sink;
                let result = NetworkSearchResult {
                    results: e.results,
                    servers_contacted: e.servers_contacted,
                    servers_responded: e.servers_responded,
                    pages_searched: e.pages_searched,
                };
                r.push(UdpAction::CompleteSearch { sink, result });
                proof {
                    assert(orig.take(i + 1).filter(exp_pred) =~= orig.take(i as int).filter(
                        exp_pred,
                    ).push(orig[i as int]));
                    assert(r@ =~= orig.take(i + 1).filter(exp_pred).map_values(
                        |s: ActiveSearch| complete_of(s),
                    ));
                    assert(orig.take(i + 1).filter(keep_pred) =~= orig.take(i as int).filter(
                        keep_pred,
                    ));
                }
            } else {
                kept.push(e);
                proof {
                    assert(orig.take(i + 1).filter(keep_pred) =~= orig.take(i as int).filter(
                        keep_pred,
                    ).push(orig[i as int]));
                    assert(orig.take(i + 1).filter(exp_pred) =~= orig.take(i as int).filter(
                        exp_pred,
                    ));
                }
            }
            i = i + 1;
        }
        proof {
            assert(orig.take(n as int) =~= orig);
        }
        self.active_searches = kept;
        proof {
            lemma_filter_keeps_distinct(orig, keep_pred);
        }
        let ghost final_searches = self.active_searches@;
        let np: usize = self.known_peers.len();
        let ghost porig = self.known_peers@;
        let ghost ppred = |p: PeerInfo| p.last_seen + PEER_EXPIRY_SECS >= now_secs;
        let mut pkept: Vec<PeerInfo> = Vec::new();
        let mut j: usize = 0;
        while j < np
            invariant
                self.my_id == old(self).my_id,
                self.accept_insert == old(self).accept_insert,
                self.active_get_embeddings == old(self).active_get_embeddings,
                str_fits(self.my_id@),
                self.active_searches@ == final_searches,
                final_searches == orig.filter(|s2: ActiveSearch| !(s2.deadline < now_millis)),
                forall|a: int, b: int|
                    0 <= a < b < final_searches.len() ==> final_searches[a].search_id
                        != final_searches[b].search_id,
                np == porig.len(),
                j <= np,
                self.known_peers@ == porig.skip(j as int),
                pkept@ == porig.take(j as int).filter(ppred),
                ppred == (|p: PeerInfo| p.last_seen + PEER_EXPIRY_SECS >= now_secs),
            decreases np - j,
        {
            let p: PeerInfo = self.known_peers.remove(0);
            proof {
                reveal(Seq::filter);
                assert(p == porig[j as int]);
                assert(porig.skip(j as int).skip(1) =~= porig.skip(j + 1));
                assert(porig.take(j + 1).drop_last() =~= porig.take(j as int));
                assert(porig.take(j + 1).last() == porig[j as int]);
            }
            let fresh: bool = if now_secs <= PEER_EXPIRY_SECS {
                true
            } else {
                p.last_seen >= now_secs - PEER_EXPIRY_SECS
            };
            if fresh {
                pkept.push(p);
                proof {
                    assert(porig.take(j + 1).filter(ppred) =~= porig.take(j as int).filter(
                        ppred,
                    ).push(porig[j as int]));
                }
            } else {
                proof {
                    assert(porig.take(j + 1).filter(ppred) =~= porig.take(j as int).filter(ppred));
                }
            }
            j = j + 1;
        }
        proof {
            assert(porig.take(np as int) =~= porig);
        }
        self.known_peers = pkept;
        r
    }

    /// Build this node's announce message and address it to every tracker.
    pub fn announce(&self, pages_indexed: u64, trackers: &Vec<String>) -> (r: Vec<UdpAction>)
        requires
            self.wf(),
        ensures
            r@.len() == trackers@.len(),
            forall|i: int|
                0 <= i < r@.len() ==> (#[trigger] r@[i] matches UdpAction::Send { addr, data }
                    && addr@ == trackers@[i]@ && data@ == enc_msg(
                    MsgView::Announce {
                        instance_id: self.my_id@,
                        accept_insert: self.accept_insert,
                        pages_indexed,
                    },
                )),
    {
        let m = UdpMessage::Announce {
            instance_id: self.my_id.clone(),
            accept_insert: self.accept_insert,
            pages_indexed,
        };
        let ghost mv = MsgView::Announce {
            instance_id: self.my_id@,
            accept_insert: self.accept_insert,
            pages_indexed,
        };
        let n: usize = trackers.len();
        let mut r: Vec<UdpAction> = Vec::new();
        let mut i: usize = 0;
        while i < n
            invariant
                self.wf(),
                n == trackers@.len(),
                i <= n,
                m@ == mv,
                msg_wf(mv),
                r@.len() == i,
                forall|t: int|
                    0 <= t < i ==> (#[trigger] r@[t] matches UdpAction::Send { addr, data } && addr@
                        == trackers@[t]@ && data@ == enc_msg(mv)),
            decreases n - i,
        {
            let data: Vec<u8> = encode_message(&m);
            r.push(UdpAction::Send { addr: trackers[i].clone(), data });
            i = i + 1;
        }
        r
    }

    /// Ask a named peer for a page's embedding, registering the request
    /// under a fresh random id.  An unknown peer, or an id collision (the
    /// caller then retries with new randomness), does nothing.
    pub fn request_embedding(
        &mut self,
        instance_id: &String,
        page_id: u64,
        sink: u64,
        search_id: u64,
    ) -> (r: Vec<UdpAction>)
        requires
            old(self).wf(),
        ensures
            final(self).wf(),
            final(self).my_id == old(self).my_id,
            final(self).accept_insert == old(self).accept_insert,
            final(self).known_peers == old(self).known_peers,
            final(self).active_searches == old(self).active_searches,
            has_ge(old(self).active_get_embeddings@, search_id) ==> *final(self) == *old(self)
                && r@.len() == 0,
            !has_ge(old(self).active_get_embeddings@, search_id) && !has_peer(
                old(self).known_peers@,
                instance_id@,
            ) ==> *final(self) == *old(self) && r@.len() == 0,
            !has_ge(old(self).active_get_embeddings@, search_id) && has_peer(
                old(self).known_peers@,
                instance_id@,
            ) ==> final(self).active_get_embeddings@ == old(self).active_get_embeddings@.push(
                ActiveGetEmbedding { search_id, sink },
            ) && r@.len() == 1 && (r@[0] matches UdpAction::Send { addr, data } && addr@ == old(self).known_peers@[peer_index_of(old(self).known_peers@, instance_id@)].addr@ && data@
                == enc_msg(MsgView::GetEmbedding { search_id, page_id })),
    {
        if self.find_ge(search_id).is_some() {
            return Vec::new();
        }
        let n: usize = self.known_peers.len();
        let mut i: usize = 0;
        while i < n
            invariant
                self.wf(),
                *self == *old(self),
                !has_ge(old(self).active_get_embeddings@, search_id),
                n == self.known_peers@.len(),
                i <= n,
                forall|j: int| 0 <= j < i ==> self.known_peers@[j].instance_id@ != instance_id@,
            decreases n - i,
        {
            if self.known_peers[i].instance_id == *instance_id {
                proof {
                    lemma_peer_index_first(self.known_peers@, instance_id@, i as int);
                }
                let addr: String = self.known_peers[i].addr.clone();
                let m = UdpMessage::GetEmbedding { search_id, page_id };
                let data: Vec<u8> = encode_message(&m);
                self.active_get_embeddings.push(ActiveGetEmbedding { search_id, sink });
                proof {
                    assert forall|a: int, b: int|
                        0 <= a < b < self.active_get_embeddings@.len() implies self.active_get_embeddings@[a].search_id
                        != self.active_get_embeddings@[b].search_id by {
                        if b < self.active_get_embeddings@.len() - 1 {
                            assert(self.active_get_embeddings@[a] == old(self).active_get_embeddings@[a]);
                            assert(self.active_get_embeddings@[b] == old(self).active_get_embeddings@[b]);
                        } else {
                            assert(self.active_get_embeddings@[a] == old(self).active_get_embeddings@[a]);
                            assert(!has_ge(old(self).active_get_embeddings@, search_id));
                        }
                    }
                }
                let mut r: Vec<UdpAction> = Vec::new();
                r.push(UdpAction::Send { addr, data });
                return r;
            }
            i = i + 1;
        }
        proof {
            if has_peer(self.known_peers@, instance_id@) {
                let w = choose|w: int|
                    0 <= w < self.known_peers@.len() && self.known_peers@[w].instance_id@
                        == instance_id@;
                assert(self.known_peers@[w].instance_id@ != instance_id@);
            }
        }
        Vec::new()
    }

    /// Answer a stored embedding to the peer that asked for it.
    pub fn answer_get_embedding(
        &self,
        reply_addr: &String,
        search_id: u64,
        embedding: &Embedding,
    ) -> (r: Vec<UdpAction>)
        requires
            self.wf(),
            embedding_wf(embedding@),
        ensures
            r@.len() == 1,
            r@[0] matches UdpAction::Send { addr, data } && addr@ == reply_addr@ && data@
                == enc_msg(
                MsgView::Embedding { search_id, embedding: i24_bytes_of(embedding@) },
            ),
    {
        let m = UdpMessage::Embedding { search_id, embedding: to_i24_bytes(embedding) };
        let data: Vec<u8> = encode_message(&m);
        let mut r: Vec<UdpAction> = Vec::new();
        r.push(UdpAction::Send { addr: reply_addr.clone(), data });
        r
    }

    /// Compress a page's fields into an `Insert` message and address it to
    /// up to three distinct accepting peers, walked round-robin from a
    /// random start.  Nothing is sent when no peer accepts inserts or the
    /// message would not fit a datagram.
    pub fn send_insert(&self, url: &String, title: &String, text: &String, rand: u64) -> (r: Vec<
        UdpAction,
    >)
        requires
            self.wf(),
        ensures
            r@.len() <= INSERT_FANOUT,
            r@.len() <= accepting_indices(self.known_peers@).len(),
            forall|k: int|
                0 <= k < r@.len() ==> (#[trigger] r@[k] matches UdpAction::Send { addr, data }
                    && addr@ == self.known_peers@[chosen_target(self.known_peers@, rand, k)].addr@
                    && self.known_peers@[chosen_target(self.known_peers@, rand, k)].accept_insert
                    && data@ == enc_msg(
                    MsgView::Insert {
                        url_smaz: crate::smaz::smaz_of(encode_utf8(url@)),
                        title_smaz: crate::smaz::smaz_of(encode_utf8(title@)),
                        text_smaz: crate::smaz::smaz_of(encode_utf8(text@)),
                    },
                )),
            accepting_indices(self.known_peers@).len() >= INSERT_FANOUT && crate::wire::bin_fits(
                crate::smaz::smaz_of(encode_utf8(url@)),
            ) && crate::wire::bin_fits(crate::smaz::smaz_of(encode_utf8(title@)))
                && crate::wire::bin_fits(crate::smaz::smaz_of(encode_utf8(text@))) && enc_msg(
                MsgView::Insert {
                    url_smaz: crate::smaz::smaz_of(encode_utf8(url@)),
                    title_smaz: crate::smaz::smaz_of(encode_utf8(title@)),
                    text_smaz: crate::smaz::smaz_of(encode_utf8(text@)),
                },
            ).len() <= MAX_DATAGRAM ==> r@.len() == INSERT_FANOUT,
    {
        let us: Vec<u8> = crate::smaz::smaz_compress(&str_to_bytes(url));
        let ts: Vec<u8> = crate::smaz::smaz_compress(&str_to_bytes(title));
        let xs: Vec<u8> = crate::smaz::smaz_compress(&str_to_bytes(text));
        if us.len() >= 65536 || ts.len() >= 65536 || xs.len() >= 65536 {
            return Vec::new();
        }
        let m = UdpMessage::Insert { url_smaz: us, title_smaz: ts, text_smaz: xs };
        let ghost mv = MsgView::Insert {
            url_smaz: crate::smaz::smaz_of(encode_utf8(url@)),
            title_smaz: crate::smaz::smaz_of(encode_utf8(title@)),
            text_smaz: crate::smaz::smaz_of(encode_utf8(text@)),
        };
        let probe: Vec<u8> = encode_message(&m);
        if probe.len() > MAX_DATAGRAM {
            return Vec::new();
        }
        // collect the accepting peers
        let n: usize = self.known_peers.len();
        let mut idxs: Vec<usize> = Vec::new();
        let mut i: usize = 0;
        while i < n
            invariant
                self.wf(),
                n == self.known_peers@.len(),
                i <= n,
                idxs@.len() == accepting_indices(self.known_peers@.take(i as int)).len(),
                forall|t: int|
                    0 <= t < idxs@.len() ==> idxs@[t] as int == accepting_indices(
                        self.known_peers@.take(i as int),
                    )[t],
            decreases n - i,
        {
            proof {
                assert(self.known_peers@.take(i + 1).drop_last() =~= self.known_peers@.take(
                    i as int,
                ));
                assert(self.known_peers@.take(i + 1).last() == self.known_peers@[i as int]);
            }
            if self.known_peers[i].accept_insert {
                idxs.push(i);
            }
            i = i + 1;
        }
        proof {
            assert(self.known_peers@.take(n as int) =~= self.known_peers@);
            lemma_accepting_indices(self.known_peers@);
        }
        let cnt: usize = idxs.len();
        if cnt == 0 {
            return Vec::new();
        }
        let start: usize = (rand % (cnt as u64)) as usize;
        let take_n: usize = if cnt < INSERT_FANOUT {
            cnt
        } else {
            INSERT_FANOUT
        };
        let mut r: Vec<UdpAction> = Vec::new();
        let mut k: usize = 0;
        while k < take_n
            invariant
                self.wf(),
                n == self.known_peers@.len(),
                cnt == idxs@.len(),
                cnt == accepting_indices(self.known_peers@).len(),
                forall|t: int|
                    0 <= t < idxs@.len() ==> idxs@[t] as int == accepting_indices(
                        self.known_peers@,
                    )[t],
                forall|t: int|
                    0 <= t < idxs@.len() ==> 0 <= accepting_indices(self.known_peers@)[t] < n
                        && self.known_peers@[accepting_indices(self.known_peers@)[t]].accept_insert,
                take_n <= cnt,
                take_n <= INSERT_FANOUT,
                start < cnt,
                start as int == rand as int % cnt as int,
                k <= take_n,
                m@ == mv,
                msg_wf(mv),
                r@.len() == k,
                forall|t: int|
                    0 <= t < k ==> (#[trigger] r@[t] matches UdpAction::Send { addr, data } && addr@
                        == self.known_peers@[chosen_target(self.known_peers@, rand, t)].addr@
                        && self.known_peers@[chosen_target(self.known_peers@, rand, t)].accept_insert
                        && data@ == enc_msg(mv)),
            decreases take_n - k,
        {
            let pos: usize = if k < cnt - start {
                start + k
            } else {
                k - (cnt - start)
            };
            proof {
                vstd::arithmetic::div_mod::lemma_mod_bound(rand as int, cnt as int);
                vstd::arithmetic::div_mod::lemma_fundamental_div_mod(rand as int, cnt as int);
                assert(start as int == rand as int % cnt as int);
                if k < cnt - start {
                    assert((start + k) as int % cnt as int == start + k) by (nonlinear_arith)
                        requires
                            0 <= start + k < cnt,
                    ;
                } else {
                    assert((start as int + k as int) % cnt as int == start + k - cnt)
                        by (nonlinear_arith)
                        requires
                            cnt <= start + k < 2 * cnt,
                            cnt > 0,
                    ;
                }
                assert(pos as int == (start as int + k as int) % cnt as int);
            }
            let target: usize = idxs[pos];
            proof {
                assert(idxs@[pos as int] as int == accepting_indices(self.known_peers@)[pos as int]);
                assert(target as int == chosen_target(self.known_peers@, rand, k as int));
            }
            let data: Vec<u8> = encode_message(&m);
            r.push(UdpAction::Send { addr: self.known_peers[target].addr.clone(), data });
            k = k + 1;
        }
        r
    }

    /// Answer a remote search: one `Page` datagram per local result whose
    /// distance is inside the sender's limit, with the text cut down to
    /// 500 bytes.  A page whose fields would overflow a datagram is
    /// skipped.
    /// Answer a remote search: one `Page` datagram per local result inside
    /// the sender's distance limit, in order, with the text cut to 500
    /// bytes.  Exactly the answerable pages are replied: a page is skipped
    /// only when the limit excludes it or its fields would overflow a
    /// datagram.
    pub fn answer_search(
        &self,
        reply_addr: &String,
        search_id: u64,
        distance_limit: Option<u64>,
        pages: &Vec<FoundPage>,
    ) -> (r: Vec<UdpAction>)
        requires
            self.wf(),
        ensures
            r@.len() == pages@.filter(
                |p: FoundPage| page_answerable(self.my_id@, search_id, distance_limit, p),
            ).len(),
            forall|k: int|
                0 <= k < r@.len() ==> (#[trigger] r@[k] matches UdpAction::Send { addr, data }
                    && addr@ == reply_addr@ && data@ == enc_msg(
                    page_reply(
                        self.my_id@,
                        search_id,
                        pages@.filter(
                            |p: FoundPage| page_answerable(self.my_id@, search_id, distance_limit, p),
                        )[k],
                    ),
                )),
    {
        proof {
            reveal(Seq::filter);
        }
        let ghost pred = |p: FoundPage| page_answerable(self.my_id@, search_id, distance_limit, p);
        let n: usize = pages.len();
        let mut r: Vec<UdpAction> = Vec::new();
        let mut i: usize = 0;
        while i < n
            invariant
                self.wf(),
                n == pages@.len(),
                i <= n,
                pred == (|p: FoundPage| page_answerable(self.my_id@, search_id, distance_limit, p)),
                r@.len() == pages@.take(i as int).filter(pred).len(),
                forall|k: int|
                    0 <= k < r@.len() ==> (#[trigger] r@[k] matches UdpAction::Send { addr, data }
                        && addr@ == reply_addr@ && data@ == enc_msg(
                        page_reply(
                            self.my_id@,
                            search_id,
                            pages@.take(i as int).filter(pred)[k],
                        ),
                    )),
            decreases n - i,
        {
            proof {
                reveal(Seq::filter);
                assert(pages@.take(i + 1).drop_last() =~= pages@.take(i as int));
                assert(pages@.take(i + 1).last() == pages@[i as int]);
            }
            let page: &FoundPage = &pages[i];
            let skip: bool = match distance_limit {
                Some(d) => page.distance >= d,
                None => false,
            };
            if skip {
                proof {
                    assert(!pred(pages@[i as int]));
                    assert(pages@.take(i + 1).filter(pred) =~= pages@.take(i as int).filter(pred));
                }
            } else {
                let text: String = crate::util::slice_up_to(page.text.as_str(), 500).to_owned();
                proof {
                    broadcast use vstd::utf8::encode_utf8_decode_utf8, vstd::utf8::encode_utf8_valid_utf8;

                    crate::util::lemma_boundary_at_or_below(encode_utf8(page.text@), 500);
                    if encode_utf8(page.text@).len() <= 500 {
                        assert(text@ == reply_text(page.text@));
                    } else {
                        assert(encode_utf8(text@) =~= encode_utf8(page.text@).subrange(
                            0,
                            crate::util::boundary_at_or_below(encode_utf8(page.text@), 500),
                        ));
                        assert(vstd::utf8::decode_utf8(encode_utf8(text@)) == text@);
                        assert(text@ == reply_text(page.text@));
                    }
                    assert(str_fits(text@));
                }
                if str_fits_exec(&page.url) && str_fits_exec(&page.title) {
                    let m = UdpMessage::Page {
                        search_id,
                        page_id: page.id,
                        distance: page.distance,
                        url: page.url.clone(),
                        title: page.title.clone(),
                        text,
                        instance_id: self.my_id.clone(),
                    };
                    proof {
                        assert(m@ == page_reply(self.my_id@, search_id, pages@[i as int]));
                    }
                    let data: Vec<u8> = encode_message(&m);
                    if data.len() <= MAX_DATAGRAM {
                        r.push(UdpAction::Send { addr: reply_addr.clone(), data });
                        proof {
                            assert(pred(pages@[i as int]));
                            assert(pages@.take(i + 1).filter(pred) =~= pages@.take(
                                i as int,
                            ).filter(pred).push(pages@[i as int]));
                        }
                    } else {
                        proof {
                            assert(!pred(pages@[i as int]));
                            assert(pages@.take(i + 1).filter(pred) =~= pages@.take(
                                i as int,
                            ).filter(pred));
                        }
                    }
                } else {
                    proof {
                        assert(!pred(pages@[i as int]));
                        assert(pages@.take(i + 1).filter(pred) =~= pages@.take(i as int).filter(
                            pred,
                        ));
                    }
                }
            }
            i = i + 1;
        }
        proof {
            assert(pages@.take(n as int) =~= pages@);
        }
        r
    }
}

fn str_fits_exec(s: &String) -> (r: bool)
    ensures
        r == str_fits(s@),
{
    s.as_str().as_bytes().len() < 65536
}

fn str_to_bytes(s: &String) -> (r: Vec<u8>)
    ensures
        r@ == encode_utf8(s@),
{
    let bs: &[u8] = s.as_str().as_bytes();
    let n: usize = bs.len();
    let mut out: Vec<u8> = Vec::new();
    let mut i: usize = 0;
    while i < n
        invariant
            n == bs@.len(),
            i <= n,
            out@.len() == i,
            forall|t: int| 0 <= t < i ==> out@[t] == bs@[t],
        decreases n - i,
    {
        out.push(bs[i]);
        i = i + 1;
    }
    proof {
        assert(out@ =~= bs@);
    }
    out
}

proof fn lemma_peer_index_first(peers: Seq<PeerInfo>, instance: Seq<char>, i: int)
    requires
        0 <= i < peers.len(),
        peers[i].instance_id@ == instance,
        forall|j: int| 0 <= j < i ==> peers[j].instance_id@ != instance,
    ensures
        has_peer(peers, instance),
        peer_index_of(peers, instance) == i,
    decreases i,
{
    if i > 0 {
        assert(peers.first().instance_id@ != instance);
        lemma_peer_index_first(peers.drop_first(), instance, i - 1);
        assert(peers.drop_first()[i - 1] == peers[i]);
        assert forall|j: int| 0 <= j < i - 1 implies peers.drop_first()[j].instance_id@
            != instance by {
            assert(peers.drop_first()[j] == peers[j + 1]);
        }
    }
}

proof fn lemma_pages_sum_nonneg(peers: Seq<PeerInfo>)
    ensures
        pages_sum(peers) >= 0,
    decreases peers.len(),
{
    if peers.len() > 0 {
        lemma_pages_sum_nonneg(peers.drop_last());
    }
}

proof fn lemma_filter_elem_from(s: Seq<ActiveSearch>, pred: spec_fn(ActiveSearch) -> bool, i: int)
    requires
        0 <= i < s.filter(pred).len(),
    ensures
        exists|j: int| 0 <= j < s.len() && s[j] == s.filter(pred)[i],
    decreases s.len(),
{
    broadcast use vstd::seq::Seq::lemma_filter_len;

    reveal(Seq::filter);
    if s.len() > 0 {
        let fp = s.drop_last().filter(pred);
        if i < fp.len() {
            lemma_filter_elem_from(s.drop_last(), pred, i);
            let j = choose|j: int| 0 <= j < s.drop_last().len() && s.drop_last()[j] == fp[i];
            assert(s[j] == s.filter(pred)[i]);
        } else {
            assert(s.filter(pred)[i] == s.last());
            assert(s[s.len() - 1] == s.filter(pred)[i]);
        }
    }
}

proof fn lemma_filter_keeps_distinct(s: Seq<ActiveSearch>, pred: spec_fn(ActiveSearch) -> bool)
    requires
        forall|i: int, j: int| 0 <= i < j < s.len() ==> s[i].search_id != s[j].search_id,
    ensures
        forall|i: int, j: int|
            0 <= i < j < s.filter(pred).len() ==> s.filter(pred)[i].search_id != s.filter(
                pred,
            )[j].search_id,
    decreases s.len(),
{
    broadcast use vstd::seq::Seq::lemma_filter_len;

    reveal(Seq::filter);
    if s.len() > 0 {
        let pre = s.drop_last();
        lemma_filter_keeps_distinct(pre, pred);
        let f = s.filter(pred);
        let fp = pre.filter(pred);
        assert forall|i: int, j: int| 0 <= i < j < f.len() implies f[i].search_id
            != f[j].search_id by {
            if j < fp.len() {
                assert(f[i] == fp[i] && f[j] == fp[j]);
            } else {
                assert(pred(s.last()));
                assert(f[j] == s.last());
                assert(f[i] == fp[i]);
                lemma_filter_elem_from(pre, pred, i);
                let w = choose|w: int| 0 <= w < pre.len() && pre[w] == fp[i];
                assert(s[w] == fp[i]);
                assert(s[w].search_id != s[s.len() - 1].search_id);
            }
        }
    }
}

/// Whether any reported page came from `instance_id`.
fn results_contain_instance(rs: &Vec<PageFromNetwork>, instance_id: &String) -> (r: bool)
    ensures
        r == results_have_instance(rs@, instance_id@),
{
    let n: usize = rs.len();
    let mut i: usize = 0;
    while i < n
        invariant
            n == rs@.len(),
            i <= n,
            forall|j: int| 0 <= j < i ==> rs@[j].instance_id@ != instance_id@,
        decreases n - i,
    {
        if rs[i].instance_id == *instance_id {
            return true;
        }
        i = i + 1;
    }
    false
}

/// Decompress one replicated text field: reject framing the decompressor
/// cannot take, then demand valid UTF-8.
fn decompress_text(data: &Vec<u8>) -> (r: Option<String>)
    ensures
        r is Some <==> insert_field_ok(data@),
        r matches Some(s) ==> unsmaz_of(data@) == Some(encode_utf8(s@)) && s@ == insert_field_text(
            data@,
        ),
{
    broadcast use vstd::utf8::encode_utf8_decode_utf8, vstd::utf8::decode_utf8_encode_utf8;

    if !smaz_accepts(data) {
        return None;
    }
    let bytes: Vec<u8> = match smaz_decompress(data) {
        Some(b) => b,
        None => {
            return None;
        },
    };
    match core::str::from_utf8(bytes.as_slice()) {
        Ok(st) => Some(st.to_owned()),
        Err(_) => None,
    }
}

} // verus!
