//! Short-string compression for replicated pages, through the `smaz` crate.
//!
//! Compression is a pure function of the input bytes, so its result is
//! named rather than described; decompression of compressed output gives
//! the input back.  `smaz::decompress` reads one byte past a verbatim-chunk
//! tag before checking bounds, so a tag at the very end of the input makes
//! it panic; `smaz_panic_free` rules exactly those inputs out, and the
//! decompressing wrapper demands it.

use vstd::prelude::*;

verus! {

/// What `smaz::compress` returns for the given bytes.
pub uninterp spec fn smaz_of(bytes: Seq<u8>) -> Seq<u8>;

/// What `smaz::decompress` returns for the given bytes: the decompressed
/// bytes, or nothing for data it rejects.
pub uninterp spec fn unsmaz_of(bytes: Seq<u8>) -> Option<Seq<u8>>;

/// Whether `smaz::decompress` finishes on these bytes without reading out
/// of bounds: wherever a verbatim tag (`254` or `255`) is reached, the byte
/// after it must exist.
pub open spec fn smaz_panic_free(bytes: Seq<u8>) -> bool
    decreases bytes.len(),
{
    if bytes.len() == 0 {
        true
    } else if bytes[0] == 254 {
        bytes.len() >= 2 && smaz_panic_free(bytes.skip(2))
    } else if bytes[0] == 255 {
        bytes.len() >= 2 && (if bytes.len() >= bytes[1] + 3 {
            smaz_panic_free(bytes.skip(bytes[1] + 3))
        } else {
            true
        })
    } else {
        smaz_panic_free(bytes.skip(1))
    }
}

/// Whether `bytes` can be handed to the decompressor safely.
pub fn smaz_accepts(bytes: &Vec<u8>) -> (r: bool)
    ensures
        r == smaz_panic_free(bytes@),
{
    let n: usize = bytes.len();
    let mut i: usize = 0;
    proof {
        assert(bytes@.skip(0) =~= bytes@);
    }
    while i < n
        invariant
            n == bytes@.len(),
            i <= n,
            smaz_panic_free(bytes@) == smaz_panic_free(bytes@.skip(i as int)),
        decreases n - i,
    {
        let b: u8 = bytes[i];
        if b == 254 {
            if n - i < 2 {
                assert(!smaz_panic_free(bytes@.skip(i as int)));
                return false;
            }
            proof {
                assert(bytes@.skip(i as int).skip(2) =~= bytes@.skip(i + 2));
            }
            i = i + 2;
        } else if b == 255 {
            if n - i < 2 {
                assert(!smaz_panic_free(bytes@.skip(i as int)));
                return false;
            }
            let c: usize = bytes[i + 1] as usize;
            if n - i >= c + 3 {
                proof {
                    assert(bytes@.skip(i as int).skip(bytes@.skip(i as int)[1] + 3) =~= bytes@.skip(
                        i + c + 3,
                    ));
                }
                i = i + c + 3;
            } else {
                assert(smaz_panic_free(bytes@.skip(i as int)));
                return true;
            }
        } else {
            proof {
                assert(bytes@.skip(i as int).skip(1) =~= bytes@.skip(i + 1));
            }
            i = i + 1;
        }
    }
    proof {
        assert(bytes@.skip(n as int) =~= Seq::<u8>::empty());
    }
    true
}

/// Relies on `smaz::compress`: its result depends on the input bytes
/// alone; decompressing it gives the input back (the crate's documented
/// round trip), and it never ends in a bare verbatim tag, since verbatim
/// chunks are always written whole.
#[verifier::external_body]
pub(crate) fn smaz_compress(bytes: &Vec<u8>) -> (r: Vec<u8>)
    ensures
        r@ == smaz_of(bytes@),
        unsmaz_of(r@) == Some(bytes@),
        smaz_panic_free(r@),
{
    ::smaz::compress(bytes.as_slice())
}

/// Relies on `smaz::decompress`: its result depends on the input bytes
/// alone; malformed framing is rejected with an error.
#[verifier::external_body]
pub(crate) fn smaz_decompress(bytes: &Vec<u8>) -> (r: Option<Vec<u8>>)
    requires
        smaz_panic_free(bytes@),
    ensures
        r is Some <==> unsmaz_of(bytes@) is Some,
        r matches Some(v) ==> unsmaz_of(bytes@) == Some(v@),
{
    match ::smaz::decompress(bytes.as_slice()) {
        Ok(v) => Some(v),
        Err(_) => None,
    }
}

} // verus!
