//! Small string helpers.

use vstd::prelude::*;

use vstd::string::StringSliceAdditionalSpecFns;
use vstd::utf8::is_char_boundary;

verus! {

/// A UTF-8 encoding takes at most four bytes per character.
pub proof fn lemma_encode_utf8_len_bound(chars: Seq<char>)
    ensures
        vstd::utf8::encode_utf8(chars).len() <= 4 * chars.len(),
    decreases chars.len(),
{
    if chars.len() > 0 {
        assert(vstd::utf8::encode_scalar(chars[0] as u32).len() <= 4);
        lemma_encode_utf8_len_bound(chars.drop_first());
    }
}

/// The largest character boundary of `bs` at or below `i`.
pub open spec fn boundary_at_or_below(bs: Seq<u8>, i: int) -> int
    decreases i,
{
    if i <= 0 {
        0
    } else if is_char_boundary(bs, i) {
        i
    } else {
        boundary_at_or_below(bs, i - 1)
    }
}

/// The boundary never lies beyond the cut point.
pub proof fn lemma_boundary_at_or_below(bs: Seq<u8>, i: int)
    requires
        0 <= i,
        vstd::utf8::valid_utf8(bs),
    ensures
        0 <= boundary_at_or_below(bs, i) <= i,
        is_char_boundary(bs, boundary_at_or_below(bs, i)),
    decreases i,
{
    if i > 0 && !is_char_boundary(bs, i) {
        lemma_boundary_at_or_below(bs, i - 1);
    }
}

/// The longest prefix of `s` that is at most `max_len` bytes long and ends
/// on a character boundary.  A `max_len` at or beyond the byte length gives
/// the whole string back.
pub fn slice_up_to(s: &str, max_len: usize) -> (r: &str)
    ensures
        max_len >= s.spec_bytes().len() ==> r == s,
        max_len < s.spec_bytes().len() ==> r.spec_bytes() =~= s.spec_bytes().subrange(
            0,
            boundary_at_or_below(s.spec_bytes(), max_len as int),
        ),
        r.spec_bytes().len() <= max_len || r == s,
{
    broadcast use vstd::utf8::encode_utf8_valid_utf8;

    let n: usize = s.as_bytes().len();
    if max_len >= n {
        return s;
    }
    let mut idx: usize = max_len;
    while !s.is_char_boundary(idx)
        invariant
            vstd::utf8::valid_utf8(s.spec_bytes()),
            0 <= idx <= max_len < s.spec_bytes().len(),
            boundary_at_or_below(s.spec_bytes(), max_len as int) == boundary_at_or_below(
                s.spec_bytes(),
                idx as int,
            ),
        decreases idx,
    {
        proof {
            if idx == 0 {
                assert(is_char_boundary(s.spec_bytes(), 0));
            }
        }
        idx = idx - 1;
    }
    proof {
        lemma_boundary_at_or_below(s.spec_bytes(), idx as int);
        assert(boundary_at_or_below(s.spec_bytes(), idx as int) == idx);
    }
    let (prefix, _) = s.split_at(idx);
    proof {
        assert(prefix.spec_bytes().len() == idx);
        assert(boundary_at_or_below(s.spec_bytes(), max_len as int) == idx as int);
        assert(prefix.spec_bytes() =~= s.spec_bytes().subrange(0, idx as int));
    }
    prefix
}

} // verus!
