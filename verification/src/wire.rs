//! The peer protocol codec: tagged wire messages in a compact map format
//! with short field names.
//!
//! A message is a one-entry map from the variant's tag to a map of its
//! fields.  Integers travel as 9-byte unsigned values, strings and byte
//! blobs carry a two-byte big-endian length, a peer list carries a two-byte
//! count.  The encoder emits exactly one canonical byte form per message
//! and the decoder accepts exactly that form, so decoding an encoded
//! message gives the original back, field for field.

use vstd::prelude::*;

use vstd::string::StringSliceAdditionalSpecFns;
use vstd::utf8::{decode_utf8, encode_utf8, valid_utf8};

verus! {

/// What a node knows about one peer.
pub struct PeerInfo {
    pub instance_id: String,
    pub addr: String,
    pub last_seen: u64,
    pub accept_insert: bool,
    pub pages_indexed: u64,
}

/// A peer protocol message.
pub enum UdpMessage {
    /// Ask a peer to search its local index.
    Search { search_id: u64, distance_limit: Option<u64>, embedding: Vec<u8> },
    /// One found page, sent back to the searcher.
    Page { search_id: u64, page_id: u64, distance: u64, url: String, title: String, text: String, instance_id: String },
    /// Offer a page for replication, fields compressed.
    Insert { url_smaz: Vec<u8>, title_smaz: Vec<u8>, text_smaz: Vec<u8> },
    /// Tell trackers and peers that this node is here.
    Announce { instance_id: String, accept_insert: bool, pages_indexed: u64 },
    /// The peers a tracker knows.
    Peers { peers: Vec<PeerInfo> },
    /// Ask a peer for a stored page's embedding.
    GetEmbedding { search_id: u64, page_id: u64 },
    /// A stored page's embedding, in wire form.
    Embedding { search_id: u64, embedding: Vec<u8> },
}

/// Ghost form of a peer entry: the field values alone.
pub struct PeerView {
    pub instance_id: Seq<char>,
    pub addr: Seq<char>,
    pub last_seen: u64,
    pub accept_insert: bool,
    pub pages_indexed: u64,
}

/// Ghost form of a message: the field values alone.
pub enum MsgView {
    Search { search_id: u64, distance_limit: Option<u64>, embedding: Seq<u8> },
    Page { search_id: u64, page_id: u64, distance: u64, url: Seq<char>, title: Seq<char>, text: Seq<char>, instance_id: Seq<char> },
    Insert { url_smaz: Seq<u8>, title_smaz: Seq<u8>, text_smaz: Seq<u8> },
    Announce { instance_id: Seq<char>, accept_insert: bool, pages_indexed: u64 },
    Peers { peers: Seq<PeerView> },
    GetEmbedding { search_id: u64, page_id: u64 },
    Embedding { search_id: u64, embedding: Seq<u8> },
}

impl View for PeerInfo {
    type V = PeerView;

    open spec fn view(&self) -> PeerView {
        PeerView {
            instance_id: self.instance_id@,
            addr: self.addr@,
            last_seen: self.last_seen,
            accept_insert: self.accept_insert,
            pages_indexed: self.pages_indexed,
        }
    }
}

impl View for UdpMessage {
    type V = MsgView;

    open spec fn view(&self) -> MsgView {
        match self {
            UdpMessage::Search { search_id, distance_limit, embedding } => MsgView::Search {
                search_id: *search_id,
                distance_limit: *distance_limit,
                embedding: embedding@,
            },
            UdpMessage::Page { search_id, page_id, distance, url, title, text, instance_id } => MsgView::Page {
                search_id: *search_id,
                page_id: *page_id,
                distance: *distance,
                url: url@,
                title: title@,
                text: text@,
                instance_id: instance_id@,
            },
            UdpMessage::Insert { url_smaz, title_smaz, text_smaz } => MsgView::Insert {
                url_smaz: url_smaz@,
                title_smaz: title_smaz@,
                text_smaz: text_smaz@,
            },
            UdpMessage::Announce { instance_id, accept_insert, pages_indexed } => MsgView::Announce {
                instance_id: instance_id@,
                accept_insert: *accept_insert,
                pages_indexed: *pages_indexed,
            },
            UdpMessage::Peers { peers } => MsgView::Peers {
                peers: Seq::new(peers@.len(), |i: int| peers@[i]@),
            },
            UdpMessage::GetEmbedding { search_id, page_id } => MsgView::GetEmbedding {
                search_id: *search_id,
                page_id: *page_id,
            },
            UdpMessage::Embedding { search_id, embedding } => MsgView::Embedding {
                search_id: *search_id,
                embedding: embedding@,
            },
        }
    }
}

/// A string fits the wire: its UTF-8 form is under 64 KiB.
pub open spec fn str_fits(s: Seq<char>) -> bool {
    encode_utf8(s).len() < 65536
}

/// A byte blob fits the wire.
pub open spec fn bin_fits(b: Seq<u8>) -> bool {
    b.len() < 65536
}

/// A peer entry fits the wire.
pub open spec fn peer_wf(p: PeerView) -> bool {
    str_fits(p.instance_id) && str_fits(p.addr)
}

/// A message's variable-length fields all fit the wire format.
pub open spec fn msg_wf(v: MsgView) -> bool {
    match v {
        MsgView::Search { embedding, .. } => bin_fits(embedding),
        MsgView::Page { url, title, text, instance_id, .. } => str_fits(url) && str_fits(title)
            && str_fits(text) && str_fits(instance_id),
        MsgView::Insert { url_smaz, title_smaz, text_smaz } => bin_fits(url_smaz) && bin_fits(
            title_smaz,
        ) && bin_fits(text_smaz),
        MsgView::Announce { instance_id, .. } => str_fits(instance_id),
        MsgView::Peers { peers } => peers.len() < 65536 && (forall|i: int|
            0 <= i < peers.len() ==> peer_wf(#[trigger] peers[i])),
        MsgView::GetEmbedding { .. } => true,
        MsgView::Embedding { embedding, .. } => bin_fits(embedding),
    }
}

/// A 64-bit value on the wire: marker `0xcf`, then 8 big-endian bytes.
pub open spec fn enc_u64(x: u64) -> Seq<u8> {
    seq![
        0xcfu8,
        ((x >> 56) & 0xFF) as u8,
        ((x >> 48) & 0xFF) as u8,
        ((x >> 40) & 0xFF) as u8,
        ((x >> 32) & 0xFF) as u8,
        ((x >> 24) & 0xFF) as u8,
        ((x >> 16) & 0xFF) as u8,
        ((x >> 8) & 0xFF) as u8,
        (x & 0xFF) as u8,
    ]
}

/// A boolean on the wire.
pub open spec fn enc_bool(b: bool) -> Seq<u8> {
    if b {
        seq![0xc3u8]
    } else {
        seq![0xc2u8]
    }
}

/// An optional 64-bit value: nil, or the value itself.
pub open spec fn enc_opt_u64(x: Option<u64>) -> Seq<u8> {
    match x {
        Option::None => seq![0xc0u8],
        Option::Some(v) => enc_u64(v),
    }
}

/// A string on the wire: marker, two-byte big-endian length, UTF-8 bytes.
pub open spec fn enc_str(s: Seq<char>) -> Seq<u8> {
    let bs = encode_utf8(s);
    seq![0xdau8, ((bs.len() as int / 256) as u8), ((bs.len() as int % 256) as u8)] + bs
}

/// A byte blob on the wire: marker, two-byte big-endian length, the bytes.
pub open spec fn enc_bin(b: Seq<u8>) -> Seq<u8> {
    seq![0xc5u8, ((b.len() as int / 256) as u8), ((b.len() as int % 256) as u8)] + b
}

/// One peer entry: a five-field map with short keys.
pub open spec fn enc_peer(p: PeerView) -> Seq<u8> {
    seq![0x85u8] + seq![0xa2u8, 0x69u8, 0x69u8]  // "ii"
    + enc_str(p.instance_id) + seq![0xa1u8, 0x61u8]  // "a"
    + enc_str(p.addr) + seq![0xa2u8, 0x6cu8, 0x73u8]  // "ls"
    + enc_u64(p.last_seen) + seq![0xa2u8, 0x61u8, 0x69u8]  // "ai"
    + enc_bool(p.accept_insert) + seq![0xa2u8, 0x70u8, 0x69u8]  // "pi"
    + enc_u64(p.pages_indexed)
}

/// A peer list: two-byte count, then the entries.
pub open spec fn enc_peer_list(peers: Seq<PeerView>) -> Seq<u8>
    decreases peers.len(),
{
    if peers.len() == 0 {
        Seq::empty()
    } else {
        enc_peer_list(peers.drop_last()) + enc_peer(peers.last())
    }
}

/// The canonical encoding of a message.
pub open spec fn enc_msg(v: MsgView) -> Seq<u8> {
    match v {
        MsgView::Search { search_id, distance_limit, embedding } => seq![
            0x81u8,
            0xa1u8,
            0x73u8,
            0x83u8,
        ]  // {"s": {..3..}}
         + seq![0xa2u8, 0x73u8, 0x69u8] + enc_u64(search_id)  // "si"
         + seq![0xa2u8, 0x64u8, 0x6cu8] + enc_opt_u64(distance_limit)  // "dl"
         + seq![0xa2u8, 0x65u8, 0x6du8] + enc_bin(embedding),  // "em"
        MsgView::Page { search_id, page_id, distance, url, title, text, instance_id } => seq![
            0x81u8,
            0xa2u8,
            0x70u8,
            0x67u8,
            0x87u8,
        ]  // {"pg": {..7..}}
         + seq![0xa2u8, 0x73u8, 0x69u8] + enc_u64(search_id)  // "si"
         + seq![0xa2u8, 0x70u8, 0x69u8] + enc_u64(page_id)  // "pi"
         + seq![0xa2u8, 0x64u8, 0x69u8] + enc_u64(distance)  // "di"
         + seq![0xa2u8, 0x75u8, 0x72u8] + enc_str(url)  // "ur"
         + seq![0xa2u8, 0x74u8, 0x69u8] + enc_str(title)  // "ti"
         + seq![0xa2u8, 0x74u8, 0x65u8] + enc_str(text)  // "te"
         + seq![0xa2u8, 0x69u8, 0x69u8] + enc_str(instance_id),  // "ii"
        MsgView::Insert { url_smaz, title_smaz, text_smaz } => seq![
            0x81u8,
            0xa1u8,
            0x6eu8,
            0x83u8,
        ]  // {"n": {..3..}}
         + seq![0xa2u8, 0x75u8, 0x73u8] + enc_bin(url_smaz)  // "us"
         + seq![0xa2u8, 0x74u8, 0x73u8] + enc_bin(title_smaz)  // "ts"
         + seq![0xa2u8, 0x78u8, 0x73u8] + enc_bin(text_smaz),  // "xs"
        MsgView::Announce { instance_id, accept_insert, pages_indexed } => seq![
            0x81u8,
            0xa1u8,
            0x61u8,
            0x83u8,
        ]  // {"a": {..3..}}
         + seq![0xa2u8, 0x69u8, 0x69u8] + enc_str(instance_id)  // "ii"
         + seq![0xa2u8, 0x61u8, 0x69u8] + enc_bool(accept_insert)  // "ai"
         + seq![0xa2u8, 0x70u8, 0x69u8] + enc_u64(pages_indexed),  // "pi"
        MsgView::Peers { peers } => seq![0x81u8, 0xa1u8, 0x70u8, 0x81u8]  // {"p": {..1..}}
         + seq![0xa2u8, 0x70u8, 0x65u8]  // "pe"
         + seq![
            0xdcu8,
            ((peers.len() as int / 256) as u8),
            ((peers.len() as int % 256) as u8),
        ] + enc_peer_list(peers),
        MsgView::GetEmbedding { search_id, page_id } => seq![0x81u8, 0xa1u8, 0x67u8, 0x82u8]  // {"g": {..2..}}
         + seq![0xa2u8, 0x73u8, 0x69u8] + enc_u64(search_id)  // "si"
         + seq![0xa2u8, 0x70u8, 0x69u8] + enc_u64(page_id),  // "pi"
        MsgView::Embedding { search_id, embedding } => seq![0x81u8, 0xa1u8, 0x65u8, 0x82u8]  // {"e": {..2..}}
         + seq![0xa2u8, 0x73u8, 0x69u8] + enc_u64(search_id)  // "si"
         + seq![0xa2u8, 0x65u8, 0x6du8] + enc_bin(embedding),  // "em"
    }
}

fn put_bytes(out: &mut Vec<u8>, b: &[u8])
    ensures
        final(out)@ == old(out)@ + b@,
{
    let mut i: usize = 0;
    while i < b.len()
        invariant
            i <= b@.len(),
            out@ == old(out)@ + b@.take(i as int),
        decreases b@.len() - i,
    {
        out.push(b[i]);
        proof {
            assert(old(out)@ + b@.take(i + 1) =~= (old(out)@ + b@.take(i as int)).push(
                b@[i as int],
            ));
        }
        i = i + 1;
    }
    proof {
        assert(b@.take(b@.len() as int) =~= b@);
    }
}

fn put_u64(out: &mut Vec<u8>, x: u64)
    ensures
        final(out)@ == old(out)@ + enc_u64(x),
{
    out.push(0xcf);
    out.push(((x >> 56) & 0xFF) as u8);
    out.push(((x >> 48) & 0xFF) as u8);
    out.push(((x >> 40) & 0xFF) as u8);
    out.push(((x >> 32) & 0xFF) as u8);
    out.push(((x >> 24) & 0xFF) as u8);
    out.push(((x >> 16) & 0xFF) as u8);
    out.push(((x >> 8) & 0xFF) as u8);
    out.push((x & 0xFF) as u8);
    proof {
        assert(out@ =~= old(out)@ + enc_u64(x));
    }
}

fn put_bool(out: &mut Vec<u8>, b: bool)
    ensures
        final(out)@ == old(out)@ + enc_bool(b),
{
    if b {
        out.push(0xc3);
    } else {
        out.push(0xc2);
    }
    proof {
        assert(out@ =~= old(out)@ + enc_bool(b));
    }
}

fn put_opt_u64(out: &mut Vec<u8>, x: &Option<u64>)
    ensures
        final(out)@ == old(out)@ + enc_opt_u64(*x),
{
    match x {
        Option::None => {
            out.push(0xc0);
            proof {
                assert(out@ =~= old(out)@ + enc_opt_u64(Option::None));
            }
        },
        Option::Some(v) => {
            put_u64(out, *v);
        },
    }
}

fn put_str(out: &mut Vec<u8>, s: &String)
    requires
        str_fits(s@),
    ensures
        final(out)@ == old(out)@ + enc_str(s@),
{
    let bs: &[u8] = s.as_str().as_bytes();
    let n: usize = bs.len();
    out.push(0xda);
    out.push((n / 256) as u8);
    out.push((n % 256) as u8);
    put_bytes(out, bs);
    proof {
        assert(out@ =~= old(out)@ + enc_str(s@));
    }
}

fn put_bin(out: &mut Vec<u8>, b: &Vec<u8>)
    requires
        bin_fits(b@),
    ensures
        final(out)@ == old(out)@ + enc_bin(b@),
{
    let n: usize = b.len();
    out.push(0xc5);
    out.push((n / 256) as u8);
    out.push((n % 256) as u8);
    put_bytes(out, b.as_slice());
    proof {
        assert(out@ =~= old(out)@ + enc_bin(b@));
    }
}

fn put_key2(out: &mut Vec<u8>, c1: u8, c2: u8)
    ensures
        final(out)@ == old(out)@ + seq![0xa2u8, c1, c2],
{
    out.push(0xa2);
    out.push(c1);
    out.push(c2);
    proof {
        assert(out@ =~= old(out)@ + seq![0xa2u8, c1, c2]);
    }
}

fn put_peer(out: &mut Vec<u8>, p: &PeerInfo)
    requires
        peer_wf(p@),
    ensures
        final(out)@ == old(out)@ + enc_peer(p@),
{
    out.push(0x85);
    put_key2(out, 0x69, 0x69);
    put_str(out, &p.instance_id);
    out.push(0xa1);
    out.push(0x61);
    put_str(out, &p.addr);
    put_key2(out, 0x6c, 0x73);
    put_u64(out, p.last_seen);
    put_key2(out, 0x61, 0x69);
    put_bool(out, p.accept_insert);
    put_key2(out, 0x70, 0x69);
    put_u64(out, p.pages_indexed);
    proof {
        assert(out@ =~= old(out)@ + enc_peer(p@));
    }
}

/// Encode a message into its canonical wire bytes.
pub fn encode_message(m: &UdpMessage) -> (r: Vec<u8>)
    requires
        msg_wf(m@),
    ensures
        r@ == enc_msg(m@),
{
    let mut out: Vec<u8> = Vec::new();
    match m {
        UdpMessage::Search { search_id, distance_limit, embedding } => {
            out.push(0x81);
            out.push(0xa1);
            out.push(0x73);
            out.push(0x83);
            put_key2(&mut out, 0x73, 0x69);
            put_u64(&mut out, *search_id);
            put_key2(&mut out, 0x64, 0x6c);
            put_opt_u64(&mut out, distance_limit);
            put_key2(&mut out, 0x65, 0x6d);
            put_bin(&mut out, embedding);
            proof {
                assert(out@ =~= enc_msg(m@));
            }
        },
        UdpMessage::Page { search_id, page_id, distance, url, title, text, instance_id } => {
            out.push(0x81);
            out.push(0xa2);
            out.push(0x70);
            out.push(0x67);
            out.push(0x87);
            put_key2(&mut out, 0x73, 0x69);
            put_u64(&mut out, *search_id);
            put_key2(&mut out, 0x70, 0x69);
            put_u64(&mut out, *page_id);
            put_key2(&mut out, 0x64, 0x69);
            put_u64(&mut out, *distance);
            put_key2(&mut out, 0x75, 0x72);
            put_str(&mut out, url);
            put_key2(&mut out, 0x74, 0x69);
            put_str(&mut out, title);
            put_key2(&mut out, 0x74, 0x65);
            put_str(&mut out, text);
            put_key2(&mut out, 0x69, 0x69);
            put_str(&mut out, instance_id);
            proof {
                assert(out@ =~= enc_msg(m@));
            }
        },
        UdpMessage::Insert { url_smaz, title_smaz, text_smaz } => {
            out.push(0x81);
            out.push(0xa1);
            out.push(0x6e);
            out.push(0x83);
            put_key2(&mut out, 0x75, 0x73);
            put_bin(&mut out, url_smaz);
            put_key2(&mut out, 0x74, 0x73);
            put_bin(&mut out, title_smaz);
            put_key2(&mut out, 0x78, 0x73);
            put_bin(&mut out, text_smaz);
            proof {
                assert(out@ =~= enc_msg(m@));
            }
        },
        UdpMessage::Announce { instance_id, accept_insert, pages_indexed } => {
            out.push(0x81);
            out.push(0xa1);
            out.push(0x61);
            out.push(0x83);
            put_key2(&mut out, 0x69, 0x69);
            put_str(&mut out, instance_id);
            put_key2(&mut out, 0x61, 0x69);
            put_bool(&mut out, *accept_insert);
            put_key2(&mut out, 0x70, 0x69);
            put_u64(&mut out, *pages_indexed);
            proof {
                assert(out@ =~= enc_msg(m@));
            }
        },
        UdpMessage::Peers { peers } => {
            out.push(0x81);
            out.push(0xa1);
            out.push(0x70);
            out.push(0x81);
            put_key2(&mut out, 0x70, 0x65);
            let n: usize = peers.len();
            out.push(0xdc);
            out.push((n / 256) as u8);
            out.push((n % 256) as u8);
            let ghost pviews = Seq::new(peers@.len(), |i: int| peers@[i]@);
            let ghost prefix = out@;
            let mut i: usize = 0;
            while i < peers.len()
                invariant
                    peers@.len() == pviews.len(),
                    forall|t: int| 0 <= t < pviews.len() ==> pviews[t] == #[trigger] peers@[t]@,
                    forall|t: int| 0 <= t < pviews.len() ==> peer_wf(#[trigger] pviews[t]),
                    i <= peers@.len(),
                    out@ == prefix + enc_peer_list(pviews.take(i as int)),
                decreases peers@.len() - i,
            {
                put_peer(&mut out, &peers[i]);
                proof {
                    assert(pviews.take(i + 1).drop_last() =~= pviews.take(i as int));
                    assert(pviews.take(i + 1).last() == pviews[i as int]);
                    assert(out@ =~= prefix + enc_peer_list(pviews.take(i + 1)));
                }
                i = i + 1;
            }
            proof {
                assert(pviews.take(pviews.len() as int) =~= pviews);
                assert(out@ =~= enc_msg(m@));
            }
        },
        UdpMessage::GetEmbedding { search_id, page_id } => {
            out.push(0x81);
            out.push(0xa1);
            out.push(0x67);
            out.push(0x82);
            put_key2(&mut out, 0x73, 0x69);
            put_u64(&mut out, *search_id);
            put_key2(&mut out, 0x70, 0x69);
            put_u64(&mut out, *page_id);
            proof {
                assert(out@ =~= enc_msg(m@));
            }
        },
        UdpMessage::Embedding { search_id, embedding } => {
            out.push(0x81);
            out.push(0xa1);
            out.push(0x65);
            out.push(0x82);
            put_key2(&mut out, 0x73, 0x69);
            put_u64(&mut out, *search_id);
            put_key2(&mut out, 0x65, 0x6d);
            put_bin(&mut out, embedding);
            proof {
                assert(out@ =~= enc_msg(m@));
            }
        },
    }
    out
}

/// Read a 64-bit value at `i`: the value and the next offset.
pub open spec fn rd_u64(b: Seq<u8>, i: int) -> Option<(u64, int)> {
    if 0 <= i && i + 9 <= b.len() && b[i] == 0xcf {
        Some(
            (
                (((b[i + 1] as u64) << 56) | ((b[i + 2] as u64) << 48) | ((b[i + 3] as u64) << 40)
                    | ((b[i + 4] as u64) << 32) | ((b[i + 5] as u64) << 24) | ((b[i
                    + 6] as u64) << 16) | ((b[i + 7] as u64) << 8) | (b[i + 8] as u64)),
                i + 9,
            ),
        )
    } else {
        None
    }
}

/// Read a boolean at `i`.
pub open spec fn rd_bool(b: Seq<u8>, i: int) -> Option<(bool, int)> {
    if 0 <= i && i + 1 <= b.len() && b[i] == 0xc2 {
        Some((false, i + 1))
    } else if 0 <= i && i + 1 <= b.len() && b[i] == 0xc3 {
        Some((true, i + 1))
    } else {
        None
    }
}

/// Read an optional 64-bit value at `i`.
pub open spec fn rd_opt_u64(b: Seq<u8>, i: int) -> Option<(Option<u64>, int)> {
    if 0 <= i && i + 1 <= b.len() && b[i] == 0xc0 {
        Some((Option::None, i + 1))
    } else {
        match rd_u64(b, i) {
            Option::Some((x, j)) => Some((Option::Some(x), j)),
            Option::None => None,
        }
    }
}

/// Read a string at `i`: the characters and the next offset.
pub open spec fn rd_str(b: Seq<u8>, i: int) -> Option<(Seq<char>, int)> {
    if 0 <= i && i + 3 <= b.len() && b[i] == 0xda {
        let n = (b[i + 1] as int) * 256 + b[i + 2] as int;
        if i + 3 + n <= b.len() && valid_utf8(b.subrange(i + 3, i + 3 + n)) {
            Some((decode_utf8(b.subrange(i + 3, i + 3 + n)), i + 3 + n))
        } else {
            None
        }
    } else {
        None
    }
}

/// Read a byte blob at `i`: the bytes and the next offset.
pub open spec fn rd_bin(b: Seq<u8>, i: int) -> Option<(Seq<u8>, int)> {
    if 0 <= i && i + 3 <= b.len() && b[i] == 0xc5 {
        let n = (b[i + 1] as int) * 256 + b[i + 2] as int;
        if i + 3 + n <= b.len() {
            Some((b.subrange(i + 3, i + 3 + n), i + 3 + n))
        } else {
            None
        }
    } else {
        None
    }
}

/// Expect a two-character field key at `i`.
pub open spec fn rd_key2(b: Seq<u8>, i: int, c1: u8, c2: u8) -> Option<int> {
    if 0 <= i && i + 3 <= b.len() && b[i] == 0xa2 && b[i + 1] == c1 && b[i + 2] == c2 {
        Some(i + 3)
    } else {
        None
    }
}

/// Expect a one-character field key at `i`.
pub open spec fn rd_key1(b: Seq<u8>, i: int, c: u8) -> Option<int> {
    if 0 <= i && i + 2 <= b.len() && b[i] == 0xa1 && b[i + 1] == c {
        Some(i + 2)
    } else {
        None
    }
}

/// Read one peer entry at `i`.
pub open spec fn rd_peer(b: Seq<u8>, i: int) -> Option<(PeerView, int)> {
    if !(0 <= i && i + 1 <= b.len() && b[i] == 0x85) {
        None
    } else {
        match rd_key2(b, i + 1, 0x69, 0x69) {
            Option::None => None,
            Option::Some(j1) => match rd_str(b, j1) {
                Option::None => None,
                Option::Some((instance_id, j2)) => match rd_key1(b, j2, 0x61) {
                    Option::None => None,
                    Option::Some(j3) => match rd_str(b, j3) {
                        Option::None => None,
                        Option::Some((addr, j4)) => match rd_key2(b, j4, 0x6c, 0x73) {
                            Option::None => None,
                            Option::Some(j5) => match rd_u64(b, j5) {
                                Option::None => None,
                                Option::Some((last_seen, j6)) => match rd_key2(b, j6, 0x61, 0x69) {
                                    Option::None => None,
                                    Option::Some(j7) => match rd_bool(b, j7) {
                                        Option::None => None,
                                        Option::Some((accept_insert, j8)) => match rd_key2(
                                            b,
                                            j8,
                                            0x70,
                                            0x69,
                                        ) {
                                            Option::None => None,
                                            Option::Some(j9) => match rd_u64(b, j9) {
                                                Option::None => None,
                                                Option::Some((pages_indexed, j10)) => Some(
                                                    (
                                                        PeerView {
                                                            instance_id,
                                                            addr,
                                                            last_seen,
                                                            accept_insert,
                                                            pages_indexed,
                                                        },
                                                        j10,
                                                    ),
                                                ),
                                            },
                                        },
                                    },
                                },
                            },
                        },
                    },
                },
            },
        }
    }
}

/// Read `cnt` peer entries starting at `i`.
pub open spec fn rd_peer_list(b: Seq<u8>, i: int, cnt: int) -> Option<(Seq<PeerView>, int)>
    decreases cnt,
{
    if cnt <= 0 {
        Some((Seq::empty(), i))
    } else {
        match rd_peer_list(b, i, cnt - 1) {
            Option::None => None,
            Option::Some((ps, j)) => match rd_peer(b, j) {
                Option::None => None,
                Option::Some((p, j2)) => Some((ps.push(p), j2)),
            },
        }
    }
}

/// Decode the fields of a `Search` message starting at `i`.
pub open spec fn dec_search(b: Seq<u8>, i: int) -> Option<(MsgView, int)> {
    match rd_key2(b, i, 0x73, 0x69) {
        Option::None => None,
        Option::Some(j1) => match rd_u64(b, j1) {
            Option::None => None,
            Option::Some((search_id, j2)) => match rd_key2(b, j2, 0x64, 0x6c) {
                Option::None => None,
                Option::Some(j3) => match rd_opt_u64(b, j3) {
                    Option::None => None,
                    Option::Some((distance_limit, j4)) => match rd_key2(b, j4, 0x65, 0x6d) {
                        Option::None => None,
                        Option::Some(j5) => match rd_bin(b, j5) {
                            Option::None => None,
                            Option::Some((embedding, j6)) => Some(
                                (MsgView::Search { search_id, distance_limit, embedding }, j6),
                            ),
                        },
                    },
                },
            },
        },
    }
}

/// Decode the fields of a `Page` message starting at `i`.
pub open spec fn dec_page(b: Seq<u8>, i: int) -> Option<(MsgView, int)> {
    match rd_key2(b, i, 0x73, 0x69) {
        Option::None => None,
        Option::Some(j1) => match rd_u64(b, j1) {
            Option::None => None,
            Option::Some((search_id, j2)) => match rd_key2(b, j2, 0x70, 0x69) {
                Option::None => None,
                Option::Some(j2b) => match rd_u64(b, j2b) {
                    Option::None => None,
                    Option::Some((page_id, j2c)) => match rd_key2(b, j2c, 0x64, 0x69) {
                Option::None => None,
                Option::Some(j3) => match rd_u64(b, j3) {
                    Option::None => None,
                    Option::Some((distance, j4)) => match rd_key2(b, j4, 0x75, 0x72) {
                        Option::None => None,
                        Option::Some(j5) => match rd_str(b, j5) {
                            Option::None => None,
                            Option::Some((url, j6)) => match rd_key2(b, j6, 0x74, 0x69) {
                                Option::None => None,
                                Option::Some(j7) => match rd_str(b, j7) {
                                    Option::None => None,
                                    Option::Some((title, j8)) => match rd_key2(b, j8, 0x74, 0x65) {
                                        Option::None => None,
                                        Option::Some(j9) => match rd_str(b, j9) {
                                            Option::None => None,
                                            Option::Some((text, j10)) => match rd_key2(
                                                b,
                                                j10,
                                                0x69,
                                                0x69,
                                            ) {
                                                Option::None => None,
                                                Option::Some(j11) => match rd_str(b, j11) {
                                                    Option::None => None,
                                                    Option::Some((instance_id, j12)) => Some(
                                                        (
                                                            MsgView::Page {
                                                                search_id,
                                                                page_id,
                                                                distance,
                                                                url,
                                                                title,
                                                                text,
                                                                instance_id,
                                                            },
                                                            j12,
                                                        ),
                                                    ),
                                                },
                                            },
                                        },
                                    },
                                },
                            },
                        },
                    },
                },
            },
                },
            },
        },
    }
}

/// Decode the fields of an `Insert` message starting at `i`.
pub open spec fn dec_insert(b: Seq<u8>, i: int) -> Option<(MsgView, int)> {
    match rd_key2(b, i, 0x75, 0x73) {
        Option::None => None,
        Option::Some(j1) => match rd_bin(b, j1) {
            Option::None => None,
            Option::Some((url_smaz, j2)) => match rd_key2(b, j2, 0x74, 0x73) {
                Option::None => None,
                Option::Some(j3) => match rd_bin(b, j3) {
                    Option::None => None,
                    Option::Some((title_smaz, j4)) => match rd_key2(b, j4, 0x78, 0x73) {
                        Option::None => None,
                        Option::Some(j5) => match rd_bin(b, j5) {
                            Option::None => None,
                            Option::Some((text_smaz, j6)) => Some(
                                (MsgView::Insert { url_smaz, title_smaz, text_smaz }, j6),
                            ),
                        },
                    },
                },
            },
        },
    }
}

/// Decode the fields of an `Announce` message starting at `i`.
pub open spec fn dec_announce(b: Seq<u8>, i: int) -> Option<(MsgView, int)> {
    match rd_key2(b, i, 0x69, 0x69) {
        Option::None => None,
        Option::Some(j1) => match rd_str(b, j1) {
            Option::None => None,
            Option::Some((instance_id, j2)) => match rd_key2(b, j2, 0x61, 0x69) {
                Option::None => None,
                Option::Some(j3) => match rd_bool(b, j3) {
                    Option::None => None,
                    Option::Some((accept_insert, j4)) => match rd_key2(b, j4, 0x70, 0x69) {
                        Option::None => None,
                        Option::Some(j5) => match rd_u64(b, j5) {
                            Option::None => None,
                            Option::Some((pages_indexed, j6)) => Some(
                                (MsgView::Announce { instance_id, accept_insert, pages_indexed }, j6),
                            ),
                        },
                    },
                },
            },
        },
    }
}

/// Decode the fields of a `Peers` message starting at `i`.
pub open spec fn dec_peers(b: Seq<u8>, i: int) -> Option<(MsgView, int)> {
    match rd_key2(b, i, 0x70, 0x65) {
        Option::None => None,
        Option::Some(j1) => if j1 + 3 <= b.len() && b[j1] == 0xdc {
            let cnt = (b[j1 + 1] as int) * 256 + b[j1 + 2] as int;
            match rd_peer_list(b, j1 + 3, cnt) {
                Option::None => None,
                Option::Some((peers, j2)) => Some((MsgView::Peers { peers }, j2)),
            }
        } else {
            None
        },
    }
}

/// Decode the fields of a `GetEmbedding` message starting at `i`.
pub open spec fn dec_get_embedding(b: Seq<u8>, i: int) -> Option<(MsgView, int)> {
    match rd_key2(b, i, 0x73, 0x69) {
        Option::None => None,
        Option::Some(j1) => match rd_u64(b, j1) {
            Option::None => None,
            Option::Some((search_id, j2)) => match rd_key2(b, j2, 0x70, 0x69) {
                Option::None => None,
                Option::Some(j3) => match rd_u64(b, j3) {
                    Option::None => None,
                    Option::Some((page_id, j4)) => Some(
                        (MsgView::GetEmbedding { search_id, page_id }, j4),
                    ),
                },
            },
        },
    }
}

/// Decode the fields of an `Embedding` message starting at `i`.
pub open spec fn dec_embedding(b: Seq<u8>, i: int) -> Option<(MsgView, int)> {
    match rd_key2(b, i, 0x73, 0x69) {
        Option::None => None,
        Option::Some(j1) => match rd_u64(b, j1) {
            Option::None => None,
            Option::Some((search_id, j2)) => match rd_key2(b, j2, 0x65, 0x6d) {
                Option::None => None,
                Option::Some(j3) => match rd_bin(b, j3) {
                    Option::None => None,
                    Option::Some((embedding, j4)) => Some(
                        (MsgView::Embedding { search_id, embedding }, j4),
                    ),
                },
            },
        },
    }
}

/// Decode a whole datagram: the message, which must fill the bytes exactly.
pub open spec fn dec_msg(b: Seq<u8>) -> Option<MsgView> {
    if b.len() < 4 || b[0] != 0x81 {
        None
    } else {
        let body = if b[1] == 0xa1 && b[2] == 0x73 && b[3] == 0x83 {
            dec_search(b, 4)
        } else if b[1] == 0xa1 && b[2] == 0x6e && b[3] == 0x83 {
            dec_insert(b, 4)
        } else if b[1] == 0xa1 && b[2] == 0x61 && b[3] == 0x83 {
            dec_announce(b, 4)
        } else if b[1] == 0xa1 && b[2] == 0x70 && b[3] == 0x81 {
            dec_peers(b, 4)
        } else if b[1] == 0xa1 && b[2] == 0x67 && b[3] == 0x82 {
            dec_get_embedding(b, 4)
        } else if b[1] == 0xa1 && b[2] == 0x65 && b[3] == 0x82 {
            dec_embedding(b, 4)
        } else if b.len() >= 5 && b[1] == 0xa2 && b[2] == 0x70 && b[3] == 0x67 && b[4] == 0x87 {
            dec_page(b, 5)
        } else {
            None
        };
        match body {
            Option::None => None,
            Option::Some((v, j)) => if j == b.len() {
                Some(v)
            } else {
                None
            },
        }
    }
}

proof fn lemma_u64_be_reassemble(x: u64)
    ensures
        (((((x >> 56) & 0xFF) as u8) as u64) << 56) | (((((x >> 48) & 0xFF) as u8) as u64) << 48)
            | (((((x >> 40) & 0xFF) as u8) as u64) << 40) | (((((x >> 32) & 0xFF) as u8) as u64)
            << 32) | (((((x >> 24) & 0xFF) as u8) as u64) << 24) | (((((x >> 16)
            & 0xFF) as u8) as u64) << 16) | (((((x >> 8) & 0xFF) as u8) as u64) << 8) | (((x
            & 0xFF) as u8) as u64) == x,
{
    assert((((((x >> 56) & 0xFF) as u8) as u64) << 56) | (((((x >> 48) & 0xFF) as u8) as u64) << 48)
        | (((((x >> 40) & 0xFF) as u8) as u64) << 40) | (((((x >> 32) & 0xFF) as u8) as u64) << 32)
        | (((((x >> 24) & 0xFF) as u8) as u64) << 24) | (((((x >> 16) & 0xFF) as u8) as u64) << 16)
        | (((((x >> 8) & 0xFF) as u8) as u64) << 8) | (((x & 0xFF) as u8) as u64) == x)
        by (bit_vector);
}

proof fn lemma_rd_u64(b: Seq<u8>, i: int, x: u64)
    requires
        0 <= i,
        i + 9 <= b.len(),
        b.subrange(i, i + 9) == enc_u64(x),
    ensures
        rd_u64(b, i) == Some((x, i + 9)),
{
    let sub = b.subrange(i, i + 9);
    assert(b[i] == 0xcf) by {
        assert(sub[0] == b[i]);
    }
    assert(b[i + 1] == ((x >> 56) & 0xFF) as u8) by {
        assert(sub[1] == b[i + 1]);
    }
    assert(b[i + 2] == ((x >> 48) & 0xFF) as u8) by {
        assert(sub[2] == b[i + 2]);
    }
    assert(b[i + 3] == ((x >> 40) & 0xFF) as u8) by {
        assert(sub[3] == b[i + 3]);
    }
    assert(b[i + 4] == ((x >> 32) & 0xFF) as u8) by {
        assert(sub[4] == b[i + 4]);
    }
    assert(b[i + 5] == ((x >> 24) & 0xFF) as u8) by {
        assert(sub[5] == b[i + 5]);
    }
    assert(b[i + 6] == ((x >> 16) & 0xFF) as u8) by {
        assert(sub[6] == b[i + 6]);
    }
    assert(b[i + 7] == ((x >> 8) & 0xFF) as u8) by {
        assert(sub[7] == b[i + 7]);
    }
    assert(b[i + 8] == (x & 0xFF) as u8) by {
        assert(sub[8] == b[i + 8]);
    }
    lemma_u64_be_reassemble(x);
}

proof fn lemma_rd_bool(b: Seq<u8>, i: int, x: bool)
    requires
        0 <= i,
        i + 1 <= b.len(),
        b.subrange(i, i + 1) == enc_bool(x),
    ensures
        rd_bool(b, i) == Some((x, i + 1)),
{
    assert(b.subrange(i, i + 1)[0] == b[i]);
}

proof fn lemma_rd_opt_u64(b: Seq<u8>, i: int, x: Option<u64>)
    requires
        0 <= i,
        i + enc_opt_u64(x).len() <= b.len(),
        b.subrange(i, i + enc_opt_u64(x).len() as int) == enc_opt_u64(x),
    ensures
        rd_opt_u64(b, i) == Some((x, i + enc_opt_u64(x).len())),
{
    match x {
        Option::None => {
            assert(b.subrange(i, i + 1)[0] == b[i]);
        },
        Option::Some(y) => {
            assert(b.subrange(i, i + 9)[0] == b[i]);
            assert(b[i] == 0xcf);
            lemma_rd_u64(b, i, y);
        },
    }
}

proof fn lemma_rd_str(b: Seq<u8>, i: int, s: Seq<char>)
    requires
        0 <= i,
        str_fits(s),
        i + enc_str(s).len() <= b.len(),
        b.subrange(i, i + enc_str(s).len() as int) == enc_str(s),
    ensures
        enc_str(s).len() == 3 + encode_utf8(s).len(),
        rd_str(b, i) == Some((s, i + enc_str(s).len())),
{
    broadcast use vstd::utf8::encode_utf8_valid_utf8, vstd::utf8::encode_utf8_decode_utf8;

    let bs = encode_utf8(s);
    let l = bs.len() as int;
    let sub = b.subrange(i, i + 3 + l);
    assert(b[i] == 0xda) by {
        assert(sub[0] == b[i]);
    }
    assert(b[i + 1] == (l / 256) as u8) by {
        assert(sub[1] == b[i + 1]);
    }
    assert(b[i + 2] == (l % 256) as u8) by {
        assert(sub[2] == b[i + 2]);
    }
    vstd::arithmetic::div_mod::lemma_fundamental_div_mod(l, 256);
    assert((b[i + 1] as int) * 256 + b[i + 2] as int == l);
    assert(b.subrange(i + 3, i + 3 + l) =~= bs) by {
        assert forall|t: int| 0 <= t < l implies b.subrange(i + 3, i + 3 + l)[t] == bs[t] by {
            assert(sub[3 + t] == b[i + 3 + t]);
        }
    }
    assert(decode_utf8(bs) == s);
}

proof fn lemma_rd_bin(b: Seq<u8>, i: int, d: Seq<u8>)
    requires
        0 <= i,
        bin_fits(d),
        i + enc_bin(d).len() <= b.len(),
        b.subrange(i, i + enc_bin(d).len() as int) == enc_bin(d),
    ensures
        enc_bin(d).len() == 3 + d.len(),
        rd_bin(b, i) == Some((d, i + enc_bin(d).len())),
{
    let l = d.len() as int;
    let sub = b.subrange(i, i + 3 + l);
    assert(b[i] == 0xc5) by {
        assert(sub[0] == b[i]);
    }
    assert(b[i + 1] == (l / 256) as u8) by {
        assert(sub[1] == b[i + 1]);
    }
    assert(b[i + 2] == (l % 256) as u8) by {
        assert(sub[2] == b[i + 2]);
    }
    vstd::arithmetic::div_mod::lemma_fundamental_div_mod(l, 256);
    assert((b[i + 1] as int) * 256 + b[i + 2] as int == l);
    assert(b.subrange(i + 3, i + 3 + l) =~= d) by {
        assert forall|t: int| 0 <= t < l implies b.subrange(i + 3, i + 3 + l)[t] == d[t] by {
            assert(sub[3 + t] == b[i + 3 + t]);
        }
    }
}

proof fn lemma_rd_key2(b: Seq<u8>, i: int, c1: u8, c2: u8)
    requires
        0 <= i,
        i + 3 <= b.len(),
        b[i] == 0xa2,
        b[i + 1] == c1,
        b[i + 2] == c2,
    ensures
        rd_key2(b, i, c1, c2) == Some(i + 3),
{
}

proof fn lemma_rd_key1(b: Seq<u8>, i: int, c: u8)
    requires
        0 <= i,
        i + 2 <= b.len(),
        b[i] == 0xa1,
        b[i + 1] == c,
    ensures
        rd_key1(b, i, c) == Some(i + 2),
{
}

#[verifier::rlimit(100)]
#[verifier::spinoff_prover]
proof fn lemma_rt_search(v: MsgView)
    requires
        v is Search,
        msg_wf(v),
    ensures
        dec_msg(enc_msg(v)) == Some(v),
{
    let b = enc_msg(v);
    match v {
        MsgView::Search { search_id, distance_limit, embedding } => {
            let o1: int = 4;
            assert(b[o1] == 0xa2 && b[o1 + 1] == 0x73 && b[o1 + 2] == 0x69);
            lemma_rd_key2(b, o1, 0x73, 0x69);
            let o2: int = o1 + 3;
            assert(b.subrange(o2, o2 + 9) =~= enc_u64(search_id));
            lemma_rd_u64(b, o2, search_id);
            let o3: int = o2 + 9;
            assert(b[o3] == 0xa2 && b[o3 + 1] == 0x64 && b[o3 + 2] == 0x6c);
            lemma_rd_key2(b, o3, 0x64, 0x6c);
            let o4: int = o3 + 3;
            let l4: int = enc_opt_u64(distance_limit).len() as int;
            assert(b.subrange(o4, o4 + l4) =~= enc_opt_u64(distance_limit));
            lemma_rd_opt_u64(b, o4, distance_limit);
            let o5: int = o4 + l4;
            assert(b[o5] == 0xa2 && b[o5 + 1] == 0x65 && b[o5 + 2] == 0x6d);
            lemma_rd_key2(b, o5, 0x65, 0x6d);
            let o6: int = o5 + 3;
            let l6: int = enc_bin(embedding).len() as int;
            assert(b.subrange(o6, o6 + l6) =~= enc_bin(embedding));
            lemma_rd_bin(b, o6, embedding);
            assert(b.len() == o6 + l6);
            assert(b[0] == 0x81 && b[1] == 0xa1 && b[2] == 0x73 && b[3] == 0x83);
            assert(dec_search(b, 4) == Some((v, b.len() as int)));
            assert(dec_msg(b) == Some(v));
        },
        _ => {
            assert(false);
        },
    }
}

#[verifier::rlimit(100)]
#[verifier::spinoff_prover]
proof fn lemma_rt_insert(v: MsgView)
    requires
        v is Insert,
        msg_wf(v),
    ensures
        dec_msg(enc_msg(v)) == Some(v),
{
    let b = enc_msg(v);
    match v {
        MsgView::Insert { url_smaz, title_smaz, text_smaz } => {
            let o1: int = 4;
            assert(b[o1] == 0xa2 && b[o1 + 1] == 0x75 && b[o1 + 2] == 0x73);
            lemma_rd_key2(b, o1, 0x75, 0x73);
            let o2: int = o1 + 3;
            let l2: int = enc_bin(url_smaz).len() as int;
            assert(b.subrange(o2, o2 + l2) =~= enc_bin(url_smaz));
            lemma_rd_bin(b, o2, url_smaz);
            let o3: int = o2 + l2;
            assert(b[o3] == 0xa2 && b[o3 + 1] == 0x74 && b[o3 + 2] == 0x73);
            lemma_rd_key2(b, o3, 0x74, 0x73);
            let o4: int = o3 + 3;
            let l4: int = enc_bin(title_smaz).len() as int;
            assert(b.subrange(o4, o4 + l4) =~= enc_bin(title_smaz));
            lemma_rd_bin(b, o4, title_smaz);
            let o5: int = o4 + l4;
            assert(b[o5] == 0xa2 && b[o5 + 1] == 0x78 && b[o5 + 2] == 0x73);
            lemma_rd_key2(b, o5, 0x78, 0x73);
            let o6: int = o5 + 3;
            let l6: int = enc_bin(text_smaz).len() as int;
            assert(b.subrange(o6, o6 + l6) =~= enc_bin(text_smaz));
            lemma_rd_bin(b, o6, text_smaz);
            assert(b.len() == o6 + l6);
            assert(b[0] == 0x81 && b[1] == 0xa1 && b[2] == 0x6e && b[3] == 0x83);
            assert(dec_insert(b, 4) == Some((v, b.len() as int)));
            assert(dec_msg(b) == Some(v));
        },
        _ => {
            assert(false);
        },
    }
}

#[verifier::rlimit(100)]
#[verifier::spinoff_prover]
proof fn lemma_rt_announce(v: MsgView)
    requires
        v is Announce,
        msg_wf(v),
    ensures
        dec_msg(enc_msg(v)) == Some(v),
{
    let b = enc_msg(v);
    match v {
        MsgView::Announce { instance_id, accept_insert, pages_indexed } => {
            let o1: int = 4;
            assert(b[o1] == 0xa2 && b[o1 + 1] == 0x69 && b[o1 + 2] == 0x69);
            lemma_rd_key2(b, o1, 0x69, 0x69);
            let o2: int = o1 + 3;
            let l2: int = enc_str(instance_id).len() as int;
            assert(b.subrange(o2, o2 + l2) =~= enc_str(instance_id));
            lemma_rd_str(b, o2, instance_id);
            let o3: int = o2 + l2;
            assert(b[o3] == 0xa2 && b[o3 + 1] == 0x61 && b[o3 + 2] == 0x69);
            lemma_rd_key2(b, o3, 0x61, 0x69);
            let o4: int = o3 + 3;
            assert(b.subrange(o4, o4 + 1) =~= enc_bool(accept_insert));
            lemma_rd_bool(b, o4, accept_insert);
            let o5: int = o4 + 1;
            assert(b[o5] == 0xa2 && b[o5 + 1] == 0x70 && b[o5 + 2] == 0x69);
            lemma_rd_key2(b, o5, 0x70, 0x69);
            let o6: int = o5 + 3;
            assert(b.subrange(o6, o6 + 9) =~= enc_u64(pages_indexed));
            lemma_rd_u64(b, o6, pages_indexed);
            assert(b.len() == o6 + 9);
            assert(b[0] == 0x81 && b[1] == 0xa1 && b[2] == 0x61 && b[3] == 0x83);
            assert(dec_announce(b, 4) == Some((v, b.len() as int)));
            assert(dec_msg(b) == Some(v));
        },
        _ => {
            assert(false);
        },
    }
}

#[verifier::rlimit(100)]
#[verifier::spinoff_prover]
proof fn lemma_rt_get_embedding(v: MsgView)
    requires
        v is GetEmbedding,
        msg_wf(v),
    ensures
        dec_msg(enc_msg(v)) == Some(v),
{
    let b = enc_msg(v);
    match v {
        MsgView::GetEmbedding { search_id, page_id } => {
            let o1: int = 4;
            assert(b[o1] == 0xa2 && b[o1 + 1] == 0x73 && b[o1 + 2] == 0x69);
            lemma_rd_key2(b, o1, 0x73, 0x69);
            let o2: int = o1 + 3;
            assert(b.subrange(o2, o2 + 9) =~= enc_u64(search_id));
            lemma_rd_u64(b, o2, search_id);
            let o3: int = o2 + 9;
            assert(b[o3] == 0xa2 && b[o3 + 1] == 0x70 && b[o3 + 2] == 0x69);
            lemma_rd_key2(b, o3, 0x70, 0x69);
            let o4: int = o3 + 3;
            assert(b.subrange(o4, o4 + 9) =~= enc_u64(page_id));
            lemma_rd_u64(b, o4, page_id);
            assert(b.len() == o4 + 9);
            assert(b[0] == 0x81 && b[1] == 0xa1 && b[2] == 0x67 && b[3] == 0x82);
            assert(rd_key2(b, o1, 0x73, 0x69) == Some(o2));
            assert(rd_u64(b, o2) == Some((search_id, o2 + 9)));
            assert(rd_key2(b, o3, 0x70, 0x69) == Some(o4));
            assert(rd_u64(b, o4) == Some((page_id, o4 + 9)));
            assert(dec_get_embedding(b, 4) == Some((v, b.len() as int)));
            assert(dec_msg(b) == Some(v));
        },
        _ => {
            assert(false);
        },
    }
}

#[verifier::rlimit(100)]
#[verifier::spinoff_prover]
proof fn lemma_rt_embedding(v: MsgView)
    requires
        v is Embedding,
        msg_wf(v),
    ensures
        dec_msg(enc_msg(v)) == Some(v),
{
    let b = enc_msg(v);
    match v {
        MsgView::Embedding { search_id, embedding } => {
            let o1: int = 4;
            assert(b[o1] == 0xa2 && b[o1 + 1] == 0x73 && b[o1 + 2] == 0x69);
            lemma_rd_key2(b, o1, 0x73, 0x69);
            let o2: int = o1 + 3;
            assert(b.subrange(o2, o2 + 9) =~= enc_u64(search_id));
            lemma_rd_u64(b, o2, search_id);
            let o3: int = o2 + 9;
            assert(b[o3] == 0xa2 && b[o3 + 1] == 0x65 && b[o3 + 2] == 0x6d);
            lemma_rd_key2(b, o3, 0x65, 0x6d);
            let o4: int = o3 + 3;
            let l4: int = enc_bin(embedding).len() as int;
            assert(b.subrange(o4, o4 + l4) =~= enc_bin(embedding));
            lemma_rd_bin(b, o4, embedding);
            assert(b.len() == o4 + l4);
            assert(b[0] == 0x81 && b[1] == 0xa1 && b[2] == 0x65 && b[3] == 0x82);
            assert(dec_embedding(b, 4) == Some((v, b.len() as int)));
            assert(dec_msg(b) == Some(v));
        },
        _ => {
            assert(false);
        },
    }
}

#[verifier::rlimit(100)]
#[verifier::spinoff_prover]
proof fn lemma_rt_page(v: MsgView)
    requires
        v is Page,
        msg_wf(v),
    ensures
        dec_msg(enc_msg(v)) == Some(v),
{
    let b = enc_msg(v);
    match v {
        MsgView::Page { search_id, page_id, distance, url, title, text, instance_id } => {
            let o1: int = 5;
            assert(b[o1] == 0xa2 && b[o1 + 1] == 0x73 && b[o1 + 2] == 0x69);
            lemma_rd_key2(b, o1, 0x73, 0x69);
            let o2: int = o1 + 3;
            assert(b.subrange(o2, o2 + 9) =~= enc_u64(search_id));
            lemma_rd_u64(b, o2, search_id);
            let o2b: int = o2 + 9;
            assert(b[o2b] == 0xa2 && b[o2b + 1] == 0x70 && b[o2b + 2] == 0x69);
            lemma_rd_key2(b, o2b, 0x70, 0x69);
            let o2c: int = o2b + 3;
            assert(b.subrange(o2c, o2c + 9) =~= enc_u64(page_id));
            lemma_rd_u64(b, o2c, page_id);
            let o3: int = o2c + 9;
            assert(b[o3] == 0xa2 && b[o3 + 1] == 0x64 && b[o3 + 2] == 0x69);
            lemma_rd_key2(b, o3, 0x64, 0x69);
            let o4: int = o3 + 3;
            assert(b.subrange(o4, o4 + 9) =~= enc_u64(distance));
            lemma_rd_u64(b, o4, distance);
            let o5: int = o4 + 9;
            assert(b[o5] == 0xa2 && b[o5 + 1] == 0x75 && b[o5 + 2] == 0x72);
            lemma_rd_key2(b, o5, 0x75, 0x72);
            let o6: int = o5 + 3;
            let l6: int = enc_str(url).len() as int;
            assert(b.subrange(o6, o6 + l6) =~= enc_str(url));
            lemma_rd_str(b, o6, url);
            let o7: int = o6 + l6;
            assert(b[o7] == 0xa2 && b[o7 + 1] == 0x74 && b[o7 + 2] == 0x69);
            lemma_rd_key2(b, o7, 0x74, 0x69);
            let o8: int = o7 + 3;
            let l8: int = enc_str(title).len() as int;
            assert(b.subrange(o8, o8 + l8) =~= enc_str(title));
            lemma_rd_str(b, o8, title);
            let o9: int = o8 + l8;
            assert(b[o9] == 0xa2 && b[o9 + 1] == 0x74 && b[o9 + 2] == 0x65);
            lemma_rd_key2(b, o9, 0x74, 0x65);
            let o10: int = o9 + 3;
            let l10: int = enc_str(text).len() as int;
            assert(b.subrange(o10, o10 + l10) =~= enc_str(text));
            lemma_rd_str(b, o10, text);
            let o11: int = o10 + l10;
            assert(b[o11] == 0xa2 && b[o11 + 1] == 0x69 && b[o11 + 2] == 0x69);
            lemma_rd_key2(b, o11, 0x69, 0x69);
            let o12: int = o11 + 3;
            let l12: int = enc_str(instance_id).len() as int;
            assert(b.subrange(o12, o12 + l12) =~= enc_str(instance_id));
            lemma_rd_str(b, o12, instance_id);
            assert(b.len() == o12 + l12);
            assert(b[0] == 0x81 && b[1] == 0xa2 && b[2] == 0x70 && b[3] == 0x67 && b[4] == 0x87);
            assert(dec_page(b, 5) == Some((v, b.len() as int)));
            assert(dec_msg(b) == Some(v));
        },
        _ => {
            assert(false);
        },
    }
}

#[verifier::rlimit(100)]
#[verifier::spinoff_prover]
proof fn lemma_rd_peer(b: Seq<u8>, i: int, p: PeerView)
    requires
        0 <= i,
        peer_wf(p),
        i + enc_peer(p).len() <= b.len(),
        b.subrange(i, i + enc_peer(p).len() as int) == enc_peer(p),
    ensures
        rd_peer(b, i) == Some((p, i + enc_peer(p).len())),
{
    let ep = enc_peer(p);
    let l = ep.len() as int;
    assert(b[i] == 0x85) by {
        assert(b.subrange(i, i + l)[0] == b[i]);
    }
    let o1: int = i + 1;
    assert(b[o1] == 0xa2 && b[o1 + 1] == 0x69 && b[o1 + 2] == 0x69) by {
        assert(b.subrange(i, i + l)[1] == b[o1]);
        assert(b.subrange(i, i + l)[2] == b[o1 + 1]);
        assert(b.subrange(i, i + l)[3] == b[o1 + 2]);
    }
    lemma_rd_key2(b, o1, 0x69, 0x69);
    let o2: int = o1 + 3;
    let l1: int = enc_str(p.instance_id).len() as int;
    assert(b.subrange(o2, o2 + l1) =~= enc_str(p.instance_id)) by {
        assert forall|t: int| 0 <= t < l1 implies b.subrange(o2, o2 + l1)[t] == enc_str(
            p.instance_id,
        )[t] by {
            assert(b.subrange(i, i + l)[4 + t] == b[o2 + t]);
        }
    }
    lemma_rd_str(b, o2, p.instance_id);
    let o3: int = o2 + l1;
    assert(b[o3] == 0xa1 && b[o3 + 1] == 0x61) by {
        assert(b.subrange(i, i + l)[o3 - i] == b[o3]);
        assert(b.subrange(i, i + l)[o3 - i + 1] == b[o3 + 1]);
    }
    lemma_rd_key1(b, o3, 0x61);
    let o4: int = o3 + 2;
    let l2: int = enc_str(p.addr).len() as int;
    assert(b.subrange(o4, o4 + l2) =~= enc_str(p.addr)) by {
        assert forall|t: int| 0 <= t < l2 implies b.subrange(o4, o4 + l2)[t] == enc_str(p.addr)[t]
            by {
            assert(b.subrange(i, i + l)[o4 - i + t] == b[o4 + t]);
        }
    }
    lemma_rd_str(b, o4, p.addr);
    let o5: int = o4 + l2;
    assert(b[o5] == 0xa2 && b[o5 + 1] == 0x6c && b[o5 + 2] == 0x73) by {
        assert(b.subrange(i, i + l)[o5 - i] == b[o5]);
        assert(b.subrange(i, i + l)[o5 - i + 1] == b[o5 + 1]);
        assert(b.subrange(i, i + l)[o5 - i + 2] == b[o5 + 2]);
    }
    lemma_rd_key2(b, o5, 0x6c, 0x73);
    let o6: int = o5 + 3;
    assert(b.subrange(o6, o6 + 9) =~= enc_u64(p.last_seen)) by {
        assert forall|t: int| 0 <= t < 9 implies b.subrange(o6, o6 + 9)[t] == enc_u64(p.last_seen)[t]
            by {
            assert(b.subrange(i, i + l)[o6 - i + t] == b[o6 + t]);
        }
    }
    lemma_rd_u64(b, o6, p.last_seen);
    let o7: int = o6 + 9;
    assert(b[o7] == 0xa2 && b[o7 + 1] == 0x61 && b[o7 + 2] == 0x69) by {
        assert(b.subrange(i, i + l)[o7 - i] == b[o7]);
        assert(b.subrange(i, i + l)[o7 - i + 1] == b[o7 + 1]);
        assert(b.subrange(i, i + l)[o7 - i + 2] == b[o7 + 2]);
    }
    lemma_rd_key2(b, o7, 0x61, 0x69);
    let o8: int = o7 + 3;
    assert(b.subrange(o8, o8 + 1) =~= enc_bool(p.accept_insert)) by {
        assert(b.subrange(i, i + l)[o8 - i] == b[o8]);
    }
    lemma_rd_bool(b, o8, p.accept_insert);
    let o9: int = o8 + 1;
    assert(b[o9] == 0xa2 && b[o9 + 1] == 0x70 && b[o9 + 2] == 0x69) by {
        assert(b.subrange(i, i + l)[o9 - i] == b[o9]);
        assert(b.subrange(i, i + l)[o9 - i + 1] == b[o9 + 1]);
        assert(b.subrange(i, i + l)[o9 - i + 2] == b[o9 + 2]);
    }
    lemma_rd_key2(b, o9, 0x70, 0x69);
    let o10: int = o9 + 3;
    assert(b.subrange(o10, o10 + 9) =~= enc_u64(p.pages_indexed)) by {
        assert forall|t: int| 0 <= t < 9 implies b.subrange(o10, o10 + 9)[t] == enc_u64(
            p.pages_indexed,
        )[t] by {
            assert(b.subrange(i, i + l)[o10 - i + t] == b[o10 + t]);
        }
    }
    lemma_rd_u64(b, o10, p.pages_indexed);
    assert(o10 + 9 == i + l);
}

#[verifier::rlimit(100)]
#[verifier::spinoff_prover]
proof fn lemma_rd_peer_list(b: Seq<u8>, i: int, peers: Seq<PeerView>)
    requires
        0 <= i,
        forall|t: int| 0 <= t < peers.len() ==> peer_wf(#[trigger] peers[t]),
        i + enc_peer_list(peers).len() <= b.len(),
        b.subrange(i, i + enc_peer_list(peers).len() as int) == enc_peer_list(peers),
    ensures
        rd_peer_list(b, i, peers.len() as int) == Some((peers, i + enc_peer_list(peers).len())),
    decreases peers.len(),
{
    if peers.len() == 0 {
        assert(rd_peer_list(b, i, 0) == Some((Seq::<PeerView>::empty(), i)));
        assert(peers =~= Seq::<PeerView>::empty());
    } else {
        let pre = peers.drop_last();
        let last = peers.last();
        let lp = enc_peer_list(pre).len() as int;
        let ll = enc_peer(last).len() as int;
        assert(enc_peer_list(peers) == enc_peer_list(pre) + enc_peer(last));
        assert(b.subrange(i, i + lp) =~= enc_peer_list(pre)) by {
            assert forall|t: int| 0 <= t < lp implies b.subrange(i, i + lp)[t] == enc_peer_list(
                pre,
            )[t] by {
                assert(b.subrange(i, i + lp + ll)[t] == b[i + t]);
            }
        }
        lemma_rd_peer_list(b, i, pre);
        assert(b.subrange(i + lp, i + lp + ll) =~= enc_peer(last)) by {
            assert forall|t: int| 0 <= t < ll implies b.subrange(i + lp, i + lp + ll)[t] == enc_peer(
                last,
            )[t] by {
                assert(b.subrange(i, i + lp + ll)[lp + t] == b[i + lp + t]);
            }
        }
        lemma_rd_peer(b, i + lp, last);
        assert(pre.push(last) =~= peers);
    }
}

#[verifier::rlimit(100)]
#[verifier::spinoff_prover]
proof fn lemma_rt_peers(v: MsgView)
    requires
        v is Peers,
        msg_wf(v),
    ensures
        dec_msg(enc_msg(v)) == Some(v),
{
    let b = enc_msg(v);
    match v {
        MsgView::Peers { peers } => {
            let o1: int = 4;
            assert(b[o1] == 0xa2 && b[o1 + 1] == 0x70 && b[o1 + 2] == 0x65);
            lemma_rd_key2(b, o1, 0x70, 0x65);
            let o2: int = o1 + 3;
            let cnt = peers.len() as int;
            assert(b[o2] == 0xdc && b[o2 + 1] == (cnt / 256) as u8 && b[o2 + 2] == (
            cnt % 256) as u8);
            vstd::arithmetic::div_mod::lemma_fundamental_div_mod(cnt, 256);
            assert((b[o2 + 1] as int) * 256 + b[o2 + 2] as int == cnt);
            let o3: int = o2 + 3;
            let ll = enc_peer_list(peers).len() as int;
            assert(b.subrange(o3, o3 + ll) =~= enc_peer_list(peers));
            lemma_rd_peer_list(b, o3, peers);
            assert(b.len() == o3 + ll);
            assert(b[0] == 0x81 && b[1] == 0xa1 && b[2] == 0x70 && b[3] == 0x81);
            assert(dec_peers(b, 4) == Some((v, b.len() as int)));
            assert(dec_msg(b) == Some(v));
        },
        _ => {
            assert(false);
        },
    }
}

/// Decoding an encoded message gives the message back: the codec loses
/// nothing.
pub proof fn lemma_wire_round_trip(v: MsgView)
    requires
        msg_wf(v),
    ensures
        dec_msg(enc_msg(v)) == Some(v),
{
    match v {
        MsgView::Search { .. } => lemma_rt_search(v),
        MsgView::Page { .. } => lemma_rt_page(v),
        MsgView::Insert { .. } => lemma_rt_insert(v),
        MsgView::Announce { .. } => lemma_rt_announce(v),
        MsgView::Peers { .. } => lemma_rt_peers(v),
        MsgView::GetEmbedding { .. } => lemma_rt_get_embedding(v),
        MsgView::Embedding { .. } => lemma_rt_embedding(v),
    }
}

#[verifier::external_type_specification]
#[verifier::external_body]
pub struct ExUtf8Error(core::str::Utf8Error);

/// Relies on `core::str::from_utf8`: it succeeds exactly on valid UTF-8
/// and returns the same bytes viewed as a string.
pub assume_specification[ core::str::from_utf8 ](v: &[u8]) -> (r: Result<
    &str,
    core::str::Utf8Error,
>)
    ensures
        r is Ok <==> valid_utf8(v@),
        r matches Ok(s) ==> s.spec_bytes() == v@,
;

fn sub_bytes(b: &Vec<u8>, from: usize, to: usize) -> (r: Vec<u8>)
    requires
        from <= to <= b@.len(),
    ensures
        r@ == b@.subrange(from as int, to as int),
{
    let mut out: Vec<u8> = Vec::new();
    let mut i: usize = from;
    while i < to
        invariant
            from <= i <= to <= b@.len(),
            out@.len() == i - from,
            forall|t: int| 0 <= t < out@.len() ==> out@[t] == b@[from + t],
        decreases to - i,
    {
        out.push(b[i]);
        i = i + 1;
    }
    proof {
        assert(out@ =~= b@.subrange(from as int, to as int));
    }
    out
}

fn get_u64(b: &Vec<u8>, i: usize) -> (r: Option<(u64, usize)>)
    ensures
        r is Some <==> rd_u64(b@, i as int) is Some,
        r matches Some(p) ==> rd_u64(b@, i as int) == Some((p.0, p.1 as int)) && i < p.1 <= b@.len(),
{
    if b.len() >= 9 && i <= b.len() - 9 && b[i] == 0xcf {
        let x: u64 = ((b[i + 1] as u64) << 56) | ((b[i + 2] as u64) << 48) | ((b[i + 3] as u64)
            << 40) | ((b[i + 4] as u64) << 32) | ((b[i + 5] as u64) << 24) | ((b[i + 6] as u64)
            << 16) | ((b[i + 7] as u64) << 8) | (b[i + 8] as u64);
        Some((x, i + 9))
    } else {
        None
    }
}

fn get_bool(b: &Vec<u8>, i: usize) -> (r: Option<(bool, usize)>)
    ensures
        r is Some <==> rd_bool(b@, i as int) is Some,
        r matches Some(p) ==> rd_bool(b@, i as int) == Some((p.0, p.1 as int)) && i < p.1
            <= b@.len(),
{
    if i < b.len() && b[i] == 0xc2 {
        Some((false, i + 1))
    } else if i < b.len() && b[i] == 0xc3 {
        Some((true, i + 1))
    } else {
        None
    }
}

fn get_opt_u64(b: &Vec<u8>, i: usize) -> (r: Option<(Option<u64>, usize)>)
    ensures
        r is Some <==> rd_opt_u64(b@, i as int) is Some,
        r matches Some(p) ==> rd_opt_u64(b@, i as int) == Some((p.0, p.1 as int)) && i < p.1
            <= b@.len(),
{
    if i < b.len() && b[i] == 0xc0 {
        Some((None, i + 1))
    } else {
        match get_u64(b, i) {
            Some((x, j)) => Some((Some(x), j)),
            None => None,
        }
    }
}

fn get_len16(b: &Vec<u8>, i: usize, marker: u8) -> (r: Option<(usize, usize)>)
    ensures
        r is Some <==> (i + 3 <= b@.len() && b@[i as int] == marker),
        r matches Some(p) ==> {
            &&& p.0 == (b@[i as int + 1] as int) * 256 + b@[i as int + 2] as int
            &&& p.1 == i + 3
            &&& p.0 < 65536
        },
{
    if b.len() >= 3 && i <= b.len() - 3 && b[i] == marker {
        let n: usize = (b[i + 1] as usize) * 256 + (b[i + 2] as usize);
        Some((n, i + 3))
    } else {
        None
    }
}

fn get_str(b: &Vec<u8>, i: usize) -> (r: Option<(String, usize)>)
    ensures
        r is Some <==> rd_str(b@, i as int) is Some,
        r matches Some(p) ==> rd_str(b@, i as int) == Some((p.0@, p.1 as int)) && i < p.1
            <= b@.len() && str_fits(p.0@),
{
    broadcast use vstd::utf8::encode_utf8_decode_utf8, vstd::utf8::decode_utf8_encode_utf8;

    let (n, j) = match get_len16(b, i, 0xda) {
        Some(p) => p,
        None => {
            return None;
        },
    };
    if n > b.len() - j {
        return None;
    }
    let bytes: Vec<u8> = sub_bytes(b, j, j + n);
    match core::str::from_utf8(bytes.as_slice()) {
        Ok(st) => {
            let owned: String = st.to_owned();
            proof {
                assert(encode_utf8(owned@) == b@.subrange(i as int + 3, i as int + 3 + n as int));
                assert(decode_utf8(encode_utf8(owned@)) == owned@);
            }
            Some((owned, j + n))
        },
        Err(_) => None,
    }
}

fn get_bin(b: &Vec<u8>, i: usize) -> (r: Option<(Vec<u8>, usize)>)
    ensures
        r is Some <==> rd_bin(b@, i as int) is Some,
        r matches Some(p) ==> rd_bin(b@, i as int) == Some((p.0@, p.1 as int)) && i < p.1
            <= b@.len() && bin_fits(p.0@),
{
    let (n, j) = match get_len16(b, i, 0xc5) {
        Some(p) => p,
        None => {
            return None;
        },
    };
    if n > b.len() - j {
        return None;
    }
    let bytes: Vec<u8> = sub_bytes(b, j, j + n);
    Some((bytes, j + n))
}

fn get_key2(b: &Vec<u8>, i: usize, c1: u8, c2: u8) -> (r: Option<usize>)
    ensures
        r is Some <==> rd_key2(b@, i as int, c1, c2) is Some,
        r matches Some(j) ==> rd_key2(b@, i as int, c1, c2) == Some(j as int) && i < j <= b@.len(),
{
    if b.len() >= 3 && i <= b.len() - 3 && b[i] == 0xa2 && b[i + 1] == c1 && b[i + 2] == c2 {
        Some(i + 3)
    } else {
        None
    }
}

fn get_key1(b: &Vec<u8>, i: usize, c: u8) -> (r: Option<usize>)
    ensures
        r is Some <==> rd_key1(b@, i as int, c) is Some,
        r matches Some(j) ==> rd_key1(b@, i as int, c) == Some(j as int) && i < j <= b@.len(),
{
    if b.len() >= 2 && i <= b.len() - 2 && b[i] == 0xa1 && b[i + 1] == c {
        Some(i + 2)
    } else {
        None
    }
}

fn get_peer(b: &Vec<u8>, i: usize) -> (r: Option<(PeerInfo, usize)>)
    ensures
        r is Some <==> rd_peer(b@, i as int) is Some,
        r matches Some(p) ==> rd_peer(b@, i as int) == Some((p.0@, p.1 as int)) && i < p.1
            <= b@.len() && peer_wf(p.0@),
{
    if !(i < b.len() && b[i] == 0x85) {
        return None;
    }
    let j1 = match get_key2(b, i + 1, 0x69, 0x69) {
        Some(j) => j,
        None => {
            return None;
        },
    };
    let (instance_id, j2) = match get_str(b, j1) {
        Some(p) => p,
        None => {
            return None;
        },
    };
    let j3 = match get_key1(b, j2, 0x61) {
        Some(j) => j,
        None => {
            return None;
        },
    };
    let (addr, j4) = match get_str(b, j3) {
        Some(p) => p,
        None => {
            return None;
        },
    };
    let j5 = match get_key2(b, j4, 0x6c, 0x73) {
        Some(j) => j,
        None => {
            return None;
        },
    };
    let (last_seen, j6) = match get_u64(b, j5) {
        Some(p) => p,
        None => {
            return None;
        },
    };
    let j7 = match get_key2(b, j6, 0x61, 0x69) {
        Some(j) => j,
        None => {
            return None;
        },
    };
    let (accept_insert, j8) = match get_bool(b, j7) {
        Some(p) => p,
        None => {
            return None;
        },
    };
    let j9 = match get_key2(b, j8, 0x70, 0x69) {
        Some(j) => j,
        None => {
            return None;
        },
    };
    let (pages_indexed, j10) = match get_u64(b, j9) {
        Some(p) => p,
        None => {
            return None;
        },
    };
    Some((PeerInfo { instance_id, addr, last_seen, accept_insert, pages_indexed }, j10))
}

proof fn lemma_peer_list_fail(b: Seq<u8>, i: int, k: int, ps: Seq<PeerView>, cur: int, m: int)
    requires
        0 <= k < m,
        rd_peer_list(b, i, k) == Some((ps, cur)),
        rd_peer(b, cur) is None,
    ensures
        rd_peer_list(b, i, m) is None,
    decreases m,
{
    if m > k + 1 {
        lemma_peer_list_fail(b, i, k, ps, cur, m - 1);
    }
}

/// Decode a datagram.  Succeeds exactly on the canonical encoding of some
/// message and returns that message.
#[verifier::rlimit(100)]
pub fn decode_message(b: &Vec<u8>) -> (r: Option<UdpMessage>)
    ensures
        r is Some <==> dec_msg(b@) is Some,
        r matches Some(m) ==> dec_msg(b@) == Some(m@) && msg_wf(m@),
{
    if b.len() < 4 || b[0] != 0x81 {
        return None;
    }
    if b[1] == 0xa1 && b[2] == 0x73 && b[3] == 0x83 {
        let j1 = match get_key2(b, 4, 0x73, 0x69) {
            Some(j) => j,
            None => {
                return None;
            },
        };
        let (search_id, j2) = match get_u64(b, j1) {
            Some(p) => p,
            None => {
                return None;
            },
        };
        let j3 = match get_key2(b, j2, 0x64, 0x6c) {
            Some(j) => j,
            None => {
                return None;
            },
        };
        let (distance_limit, j4) = match get_opt_u64(b, j3) {
            Some(p) => p,
            None => {
                return None;
            },
        };
        let j5 = match get_key2(b, j4, 0x65, 0x6d) {
            Some(j) => j,
            None => {
                return None;
            },
        };
        let (embedding, j6) = match get_bin(b, j5) {
            Some(p) => p,
            None => {
                return None;
            },
        };
        if j6 != b.len() {
            return None;
        }
        return Some(UdpMessage::Search { search_id, distance_limit, embedding });
    }
    if b[1] == 0xa1 && b[2] == 0x6e && b[3] == 0x83 {
        let j1 = match get_key2(b, 4, 0x75, 0x73) {
            Some(j) => j,
            None => {
                return None;
            },
        };
        let (url_smaz, j2) = match get_bin(b, j1) {
            Some(p) => p,
            None => {
                return None;
            },
        };
        let j3 = match get_key2(b, j2, 0x74, 0x73) {
            Some(j) => j,
            None => {
                return None;
            },
        };
        let (title_smaz, j4) = match get_bin(b, j3) {
            Some(p) => p,
            None => {
                return None;
            },
        };
        let j5 = match get_key2(b, j4, 0x78, 0x73) {
            Some(j) => j,
            None => {
                return None;
            },
        };
        let (text_smaz, j6) = match get_bin(b, j5) {
            Some(p) => p,
            None => {
                return None;
            },
        };
        if j6 != b.len() {
            return None;
        }
        return Some(UdpMessage::Insert { url_smaz, title_smaz, text_smaz });
    }
    if b[1] == 0xa1 && b[2] == 0x61 && b[3] == 0x83 {
        let j1 = match get_key2(b, 4, 0x69, 0x69) {
            Some(j) => j,
            None => {
                return None;
            },
        };
        let (instance_id, j2) = match get_str(b, j1) {
            Some(p) => p,
            None => {
                return None;
            },
        };
        let j3 = match get_key2(b, j2, 0x61, 0x69) {
            Some(j) => j,
            None => {
                return None;
            },
        };
        let (accept_insert, j4) = match get_bool(b, j3) {
            Some(p) => p,
            None => {
                return None;
            },
        };
        let j5 = match get_key2(b, j4, 0x70, 0x69) {
            Some(j) => j,
            None => {
                return None;
            },
        };
        let (pages_indexed, j6) = match get_u64(b, j5) {
            Some(p) => p,
            None => {
                return None;
            },
        };
        if j6 != b.len() {
            return None;
        }
        return Some(UdpMessage::Announce { instance_id, accept_insert, pages_indexed });
    }
    if b[1] == 0xa1 && b[2] == 0x70 && b[3] == 0x81 {
        let j1 = match get_key2(b, 4, 0x70, 0x65) {
            Some(j) => j,
            None => {
                return None;
            },
        };
        let (cnt, j2) = match get_len16(b, j1, 0xdc) {
            Some(p) => p,
            None => {
                return None;
            },
        };
        let mut peers: Vec<PeerInfo> = Vec::new();
        let mut cur: usize = j2;
        let mut k: usize = 0;
        let ghost cntg = (b@[j1 as int + 1] as int) * 256 + b@[j1 as int + 2] as int;
        while k < cnt
            invariant
                b@.len() >= 10,
                b@[0] == 0x81 && b@[1] == 0xa1 && b@[2] == 0x70 && b@[3] == 0x81,
                b@[7] == 0xdc,
                j1 == 7,
                j2 == 10,
                rd_key2(b@, 4, 0x70, 0x65) == Some(7int),
                cnt as int == (b@[8] as int) * 256 + b@[9] as int,
                cnt == cntg,
                k <= cnt,
                peers@.len() == k,
                cur <= b@.len(),
                rd_peer_list(b@, j2 as int, k as int) == Some(
                    (Seq::new(peers@.len(), |t: int| peers@[t]@), cur as int),
                ),
                forall|t: int| 0 <= t < k ==> peer_wf(#[trigger] peers@[t]@),
            decreases cnt - k,
        {
            let ghost pviews = Seq::new(peers@.len(), |t: int| peers@[t]@);
            let (p, nxt) = match get_peer(b, cur) {
                Some(p) => p,
                None => {
                    proof {
                        lemma_peer_list_fail(
                            b@,
                            j2 as int,
                            k as int,
                            pviews,
                            cur as int,
                            cnt as int,
                        );
                        assert(rd_peer_list(b@, j2 as int, cnt as int) is None);
                        assert(dec_peers(b@, 4) is None);
                        assert(dec_msg(b@) is None);
                    }
                    return None;
                },
            };
            peers.push(p);
            proof {
                assert(Seq::new(peers@.len(), |t: int| peers@[t]@) =~= pviews.push(p@));
            }
            cur = nxt;
            k = k + 1;
        }
        if cur != b.len() {
            return None;
        }
        let m = UdpMessage::Peers { peers };
        proof {
            assert(dec_msg(b@) == Some(m@));
        }
        return Some(m);
    }
    if b[1] == 0xa1 && b[2] == 0x67 && b[3] == 0x82 {
        let j1 = match get_key2(b, 4, 0x73, 0x69) {
            Some(j) => j,
            None => {
                return None;
            },
        };
        let (search_id, j2) = match get_u64(b, j1) {
            Some(p) => p,
            None => {
                return None;
            },
        };
        let j3 = match get_key2(b, j2, 0x70, 0x69) {
            Some(j) => j,
            None => {
                return None;
            },
        };
        let (page_id, j4) = match get_u64(b, j3) {
            Some(p) => p,
            None => {
                return None;
            },
        };
        if j4 != b.len() {
            return None;
        }
        return Some(UdpMessage::GetEmbedding { search_id, page_id });
    }
    if b[1] == 0xa1 && b[2] == 0x65 && b[3] == 0x82 {
        let j1 = match get_key2(b, 4, 0x73, 0x69) {
            Some(j) => j,
            None => {
                return None;
            },
        };
        let (search_id, j2) = match get_u64(b, j1) {
            Some(p) => p,
            None => {
                return None;
            },
        };
        let j3 = match get_key2(b, j2, 0x65, 0x6d) {
            Some(j) => j,
            None => {
                return None;
            },
        };
        let (embedding, j4) = match get_bin(b, j3) {
            Some(p) => p,
            None => {
                return None;
            },
        };
        if j4 != b.len() {
            return None;
        }
        return Some(UdpMessage::Embedding { search_id, embedding });
    }
    if b.len() >= 5 && b[1] == 0xa2 && b[2] == 0x70 && b[3] == 0x67 && b[4] == 0x87 {
        let j1 = match get_key2(b, 5, 0x73, 0x69) {
            Some(j) => j,
            None => {
                return None;
            },
        };
        let (search_id, j2) = match get_u64(b, j1) {
            Some(p) => p,
            None => {
                return None;
            },
        };
        let j2b = match get_key2(b, j2, 0x70, 0x69) {
            Some(j) => j,
            None => {
                return None;
            },
        };
        let (page_id, j2c) = match get_u64(b, j2b) {
            Some(p) => p,
            None => {
                return None;
            },
        };
        let j3 = match get_key2(b, j2c, 0x64, 0x69) {
            Some(j) => j,
            None => {
                return None;
            },
        };
        let (distance, j4) = match get_u64(b, j3) {
            Some(p) => p,
            None => {
                return None;
            },
        };
        let j5 = match get_key2(b, j4, 0x75, 0x72) {
            Some(j) => j,
            None => {
                return None;
            },
        };
        let (url, j6) = match get_str(b, j5) {
            Some(p) => p,
            None => {
                return None;
            },
        };
        let j7 = match get_key2(b, j6, 0x74, 0x69) {
            Some(j) => j,
            None => {
                return None;
            },
        };
        let (title, j8) = match get_str(b, j7) {
            Some(p) => p,
            None => {
                return None;
            },
        };
        let j9 = match get_key2(b, j8, 0x74, 0x65) {
            Some(j) => j,
            None => {
                return None;
            },
        };
        let (text, j10) = match get_str(b, j9) {
            Some(p) => p,
            None => {
                return None;
            },
        };
        let j11 = match get_key2(b, j10, 0x69, 0x69) {
            Some(j) => j,
            None => {
                return None;
            },
        };
        let (instance_id, j12) = match get_str(b, j11) {
            Some(p) => p,
            None => {
                return None;
            },
        };
        if j12 != b.len() {
            return None;
        }
        return Some(UdpMessage::Page { search_id, page_id, distance, url, title, text, instance_id });
    }
    None
}

} // verus!
