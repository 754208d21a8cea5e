//! Byte codecs for embeddings.
//!
//! The wire form packs each quantized component into 3 little-endian bytes
//! (`3 * EM_LEN == 1152` bytes in all); the storage form packs each component
//! into 4 little-endian bytes (`4 * EM_LEN == 1536` bytes).  Decoding either
//! form rejects blobs of the wrong length and vectors that are not
//! unit-length within tolerance.

use vstd::prelude::*;

use crate::vector::{
    CodecError, Embedding, components_in_range, embedding_wf, is_normalized, EM_LEN, I24_MAX,
};

verus! {

/// Byte `i` of the 3-byte little-endian wire encoding of `qs`.
pub open spec fn i24_byte_at(qs: Seq<u32>, i: int) -> u8 {
    let q = qs[i / 3];
    if i % 3 == 0 {
        (q & 0xFF) as u8
    } else if i % 3 == 1 {
        ((q >> 8) & 0xFF) as u8
    } else {
        ((q >> 16) & 0xFF) as u8
    }
}

/// The 3-byte little-endian wire encoding of a quantized vector.
pub open spec fn i24_bytes_of(qs: Seq<u32>) -> Seq<u8> {
    Seq::new((3 * qs.len()) as nat, |i: int| i24_byte_at(qs, i))
}

/// Component `k` read back from a 3-byte little-endian blob.
pub open spec fn i24_component(bs: Seq<u8>, k: int) -> u32 {
    (bs[3 * k] as u32) | ((bs[3 * k + 1] as u32) << 8) | ((bs[3 * k + 2] as u32) << 16)
}

/// The quantized vector read back from a 3-byte little-endian blob.
pub open spec fn i24_decoded(bs: Seq<u8>) -> Seq<u32> {
    Seq::new((bs.len() / 3) as nat, |k: int| i24_component(bs, k))
}

/// Byte `i` of the 4-byte little-endian storage encoding of `qs`.
pub open spec fn raw_byte_at(qs: Seq<u32>, i: int) -> u8 {
    let q = qs[i / 4];
    if i % 4 == 0 {
        (q & 0xFF) as u8
    } else if i % 4 == 1 {
        ((q >> 8) & 0xFF) as u8
    } else if i % 4 == 2 {
        ((q >> 16) & 0xFF) as u8
    } else {
        ((q >> 24) & 0xFF) as u8
    }
}

/// The 4-byte little-endian storage encoding of a quantized vector.
pub open spec fn raw_bytes_of(qs: Seq<u32>) -> Seq<u8> {
    Seq::new((4 * qs.len()) as nat, |i: int| raw_byte_at(qs, i))
}

/// Component `k` read back from a 4-byte little-endian blob.
pub open spec fn raw_component(bs: Seq<u8>, k: int) -> u32 {
    (bs[4 * k] as u32) | ((bs[4 * k + 1] as u32) << 8) | ((bs[4 * k + 2] as u32) << 16) | ((bs[4 * k
        + 3] as u32) << 24)
}

/// The quantized vector read back from a 4-byte little-endian blob.
pub open spec fn raw_decoded(bs: Seq<u8>) -> Seq<u32> {
    Seq::new((bs.len() / 4) as nat, |k: int| raw_component(bs, k))
}

proof fn lemma_div3(i: int)
    ensures
        (3 * i) / 3 == i,
        (3 * i) % 3 == 0,
        (3 * i + 1) / 3 == i,
        (3 * i + 1) % 3 == 1,
        (3 * i + 2) / 3 == i,
        (3 * i + 2) % 3 == 2,
{
    assert((3 * i) / 3 == i && (3 * i) % 3 == 0 && (3 * i + 1) / 3 == i && (3 * i + 1) % 3 == 1 && (
    3 * i + 2) / 3 == i && (3 * i + 2) % 3 == 2) by (nonlinear_arith);
}

proof fn lemma_div4(i: int)
    ensures
        (4 * i) / 4 == i,
        (4 * i) % 4 == 0,
        (4 * i + 1) / 4 == i,
        (4 * i + 1) % 4 == 1,
        (4 * i + 2) / 4 == i,
        (4 * i + 2) % 4 == 2,
        (4 * i + 3) / 4 == i,
        (4 * i + 3) % 4 == 3,
{
    assert((4 * i) / 4 == i && (4 * i) % 4 == 0 && (4 * i + 1) / 4 == i && (4 * i + 1) % 4 == 1 && (
    4 * i + 2) / 4 == i && (4 * i + 2) % 4 == 2 && (4 * i + 3) / 4 == i && (4 * i + 3) % 4 == 3)
        by (nonlinear_arith);
}

proof fn lemma_u32_le3_reassemble(q: u32)
    requires
        q <= I24_MAX,
    ensures
        ((((q & 0xFF) as u8) as u32) | (((((q >> 8) & 0xFF) as u8) as u32) << 8) | (((((q >> 16)
            & 0xFF) as u8) as u32) << 16)) == q,
{
    assert(q <= 0x7FFFFF ==> ((((q & 0xFF) as u8) as u32) | (((((q >> 8) & 0xFF) as u8) as u32)
        << 8) | (((((q >> 16) & 0xFF) as u8) as u32) << 16)) == q) by (bit_vector);
}

proof fn lemma_u32_le4_reassemble(q: u32)
    ensures
        ((((q & 0xFF) as u8) as u32) | (((((q >> 8) & 0xFF) as u8) as u32) << 8) | (((((q >> 16)
            & 0xFF) as u8) as u32) << 16) | (((((q >> 24) & 0xFF) as u8) as u32) << 24)) == q,
{
    assert(((((q & 0xFF) as u8) as u32) | (((((q >> 8) & 0xFF) as u8) as u32) << 8) | (((((q >> 16)
        & 0xFF) as u8) as u32) << 16) | (((((q >> 24) & 0xFF) as u8) as u32) << 24)) == q)
        by (bit_vector);
}

/// Encoding then decoding the 3-byte wire form gives the vector back.
pub proof fn lemma_i24_round_trip(qs: Seq<u32>)
    requires
        components_in_range(qs),
    ensures
        i24_bytes_of(qs).len() == 3 * qs.len(),
        i24_decoded(i24_bytes_of(qs)) == qs,
{
    let bs = i24_bytes_of(qs);
    assert forall|k: int| 0 <= k < qs.len() implies i24_component(bs, k) == qs[k] by {
        lemma_div3(k);
        assert(bs[3 * k] == (qs[k] & 0xFF) as u8);
        assert(bs[3 * k + 1] == ((qs[k] >> 8) & 0xFF) as u8);
        assert(bs[3 * k + 2] == ((qs[k] >> 16) & 0xFF) as u8);
        lemma_u32_le3_reassemble(qs[k]);
    }
    assert(i24_decoded(bs) =~= qs);
}

/// Encoding then decoding the 4-byte storage form gives the vector back.
pub proof fn lemma_raw_round_trip(qs: Seq<u32>)
    ensures
        raw_bytes_of(qs).len() == 4 * qs.len(),
        raw_decoded(raw_bytes_of(qs)) == qs,
{
    let bs = raw_bytes_of(qs);
    assert forall|k: int| 0 <= k < qs.len() implies raw_component(bs, k) == qs[k] by {
        lemma_div4(k);
        assert(bs[4 * k] == (qs[k] & 0xFF) as u8);
        assert(bs[4 * k + 1] == ((qs[k] >> 8) & 0xFF) as u8);
        assert(bs[4 * k + 2] == ((qs[k] >> 16) & 0xFF) as u8);
        assert(bs[4 * k + 3] == ((qs[k] >> 24) & 0xFF) as u8);
        lemma_u32_le4_reassemble(qs[k]);
    }
    assert(raw_decoded(bs) =~= qs);
}

/// Pack an embedding into its 1152-byte wire form: 3 little-endian bytes
/// per quantized component.
pub fn to_i24_bytes(e: &Embedding) -> (r: Vec<u8>)
    requires
        e@.len() == EM_LEN,
        components_in_range(e@),
    ensures
        r@ == i24_bytes_of(e@),
        r@.len() == 3 * EM_LEN,
{
    let mut out: Vec<u8> = Vec::new();
    let mut i: usize = 0;
    while i < EM_LEN
        invariant
            e@.len() == EM_LEN,
            components_in_range(e@),
            i <= EM_LEN,
            out@.len() == 3 * i,
            forall|j: int| 0 <= j < 3 * i ==> out@[j] == i24_byte_at(e@, j),
        decreases EM_LEN - i,
    {
        let q: u32 = e[i];
        out.push((q & 0xFF) as u8);
        out.push(((q >> 8) & 0xFF) as u8);
        out.push(((q >> 16) & 0xFF) as u8);
        proof {
            lemma_div3(i as int);
        }
        i = i + 1;
    }
    assert(out@ =~= i24_bytes_of(e@));
    out
}

/// Unpack a 1152-byte wire blob into an embedding, rejecting a blob of the
/// wrong length and a vector that is not unit-length within tolerance.
pub fn from_i24_bytes(b: &Vec<u8>) -> (r: Result<Embedding, CodecError>)
    ensures
        r is Ok <==> (b@.len() == 3 * EM_LEN && embedding_wf(i24_decoded(b@))),
        r matches Ok(e) ==> e@ == i24_decoded(b@),
        r matches Err(er) ==> (er == CodecError::WrongLength <==> b@.len() != 3 * EM_LEN),
{
    if b.len() != 3 * EM_LEN {
        return Err(CodecError::WrongLength);
    }
    let mut out: Vec<u32> = Vec::new();
    let mut k: usize = 0;
    while k < EM_LEN
        invariant
            b@.len() == 3 * EM_LEN,
            k <= EM_LEN,
            out@.len() == k,
            forall|j: int| 0 <= j < k ==> out@[j] == i24_component(b@, j),
        decreases EM_LEN - k,
    {
        let q: u32 = (b[3 * k] as u32) | ((b[3 * k + 1] as u32) << 8) | ((b[3 * k + 2] as u32)
            << 16);
        out.push(q);
        k = k + 1;
    }
    assert(out@ =~= i24_decoded(b@));
    if is_normalized(&out) {
        Ok(out)
    } else {
        Err(CodecError::NotNormalized)
    }
}

/// Pack an embedding into its 1536-byte storage form: 4 little-endian bytes
/// per quantized component.
pub fn raw_bytes(e: &Embedding) -> (r: Vec<u8>)
    requires
        e@.len() == EM_LEN,
    ensures
        r@ == raw_bytes_of(e@),
        r@.len() == 4 * EM_LEN,
{
    let mut out: Vec<u8> = Vec::new();
    let mut i: usize = 0;
    while i < EM_LEN
        invariant
            e@.len() == EM_LEN,
            i <= EM_LEN,
            out@.len() == 4 * i,
            forall|j: int| 0 <= j < 4 * i ==> out@[j] == raw_byte_at(e@, j),
        decreases EM_LEN - i,
    {
        let q: u32 = e[i];
        out.push((q & 0xFF) as u8);
        out.push(((q >> 8) & 0xFF) as u8);
        out.push(((q >> 16) & 0xFF) as u8);
        out.push(((q >> 24) & 0xFF) as u8);
        proof {
            lemma_div4(i as int);
        }
        i = i + 1;
    }
    assert(out@ =~= raw_bytes_of(e@));
    out
}

/// Unpack a 1536-byte storage blob into an embedding, rejecting a blob of
/// the wrong length and a vector that is not unit-length within tolerance.
pub fn from_raw_bytes(b: &Vec<u8>) -> (r: Result<Embedding, CodecError>)
    ensures
        r is Ok <==> (b@.len() == 4 * EM_LEN && embedding_wf(raw_decoded(b@))),
        r matches Ok(e) ==> e@ == raw_decoded(b@),
        r matches Err(er) ==> (er == CodecError::WrongLength <==> b@.len() != 4 * EM_LEN),
{
    if b.len() != 4 * EM_LEN {
        return Err(CodecError::WrongLength);
    }
    let mut out: Vec<u32> = Vec::new();
    let mut k: usize = 0;
    while k < EM_LEN
        invariant
            b@.len() == 4 * EM_LEN,
            k <= EM_LEN,
            out@.len() == k,
            forall|j: int| 0 <= j < k ==> out@[j] == raw_component(b@, j),
        decreases EM_LEN - k,
    {
        let q: u32 = (b[4 * k] as u32) | ((b[4 * k + 1] as u32) << 8) | ((b[4 * k + 2] as u32)
            << 16) | ((b[4 * k + 3] as u32) << 24);
        out.push(q);
        k = k + 1;
    }
    assert(out@ =~= raw_decoded(b@));
    if is_normalized(&out) {
        Ok(out)
    } else {
        Err(CodecError::NotNormalized)
    }
}

} // verus!
