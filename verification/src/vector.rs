//! Vector primitives: quantized unit-length embeddings, their normalization
//! invariant, and distance metrics.
//!
//! An embedding component is stored as a quantized integer `q` in
//! `[0, I24_MAX]` standing for the real value `x = 2*q/I24_MAX - 1`, so that
//! `x` ranges over `[-1, 1]`.  The squared L2 norm of the real vector, scaled
//! by `I24_MAX^2`, is then the exact integer `sum((2*q_i - I24_MAX)^2)`, and
//! the unit-norm tolerance band `|norm - 1| <= 0.01` becomes the exact
//! integer band `9801 * I24_MAX^2 <= 10000 * sum <= 10201 * I24_MAX^2`.

use vstd::prelude::*;

verus! {

/// Dimension of every embedding.
pub const EM_LEN: usize = 384;

/// Largest quantized component value; `q == I24_MAX` stands for `x == 1`.
pub const I24_MAX: u32 = 0x7FFFFF;

/// `I24_MAX` squared, the scale of the integer norm band.
pub const I24_MAX_SQ: u64 = 0x7FFFFF * 0x7FFFFF;

/// An embedding: `EM_LEN` quantized components.
pub type Embedding = Vec<u32>;

/// Decoding or validation failure for an embedding blob.
#[derive(Debug, Clone, Copy, PartialEq, Eq, Structural)]
pub enum CodecError {
    /// The blob does not have the expected byte length.
    WrongLength,
    /// The decoded vector is not unit-length within tolerance.
    NotNormalized,
}

/// The squared deviation of one component from the vector's center,
/// scaled by `I24_MAX`: `(2*q - I24_MAX)^2`.
pub open spec fn term_sq(q: u32) -> int {
    (2 * q - I24_MAX) * (2 * q - I24_MAX)
}

/// Scaled squared L2 norm of the real vector the components stand for:
/// `sum((2*q_i - I24_MAX)^2) == I24_MAX^2 * |v|^2`.
pub open spec fn norm_sq_scaled(qs: Seq<u32>) -> int
    decreases qs.len(),
{
    if qs.len() == 0 {
        0
    } else {
        norm_sq_scaled(qs.drop_last()) + term_sq(qs.last())
    }
}

/// Every component is a valid quantized value.
pub open spec fn components_in_range(qs: Seq<u32>) -> bool {
    forall|i: int| 0 <= i < qs.len() ==> qs[i] <= I24_MAX
}

/// The vector's L2 norm is within `0.01` of `1`:
/// `0.99^2 <= norm^2 <= 1.01^2`, stated exactly over the scaled integer norm.
pub open spec fn is_unit_norm(qs: Seq<u32>) -> bool {
    9801 * (I24_MAX as int * I24_MAX as int) <= 10000 * norm_sq_scaled(qs)
        <= 10201 * (I24_MAX as int * I24_MAX as int)
}

/// A well-formed embedding: full dimension, components in range, unit norm.
pub open spec fn embedding_wf(qs: Seq<u32>) -> bool {
    &&& qs.len() == EM_LEN
    &&& components_in_range(qs)
    &&& is_unit_norm(qs)
}

proof fn lemma_mul_succ(n: int, c: int)
    ensures
        (n + 1) * c == n * c + c,
        (n + 1) * c >= n * c + c,
{
    assert((n + 1) * c == n * c + c) by (nonlinear_arith);
}

proof fn lemma_term_sq_abs(q: u32, d: u64)
    requires
        q <= I24_MAX,
        d == if 2 * q >= I24_MAX { 2 * q - I24_MAX } else { I24_MAX - 2 * q },
    ensures
        term_sq(q) == d * d,
        d <= I24_MAX,
        d * d <= I24_MAX_SQ,
{
    assert((I24_MAX - 2 * q) * (I24_MAX - 2 * q) == (2 * q - I24_MAX) * (2 * q - I24_MAX))
        by (nonlinear_arith);
    assert(d * d <= I24_MAX as u64 * I24_MAX as u64) by (nonlinear_arith)
        requires
            d <= I24_MAX,
    ;
}

/// Whether `v` is a well-formed embedding: correct dimension, every
/// component in range, and unit-length within the `0.01` tolerance.
pub fn is_normalized(v: &Embedding) -> (r: bool)
    ensures
        r == embedding_wf(v@),
{
    if v.len() != EM_LEN {
        return false;
    }
    let mut sum: u128 = 0;
    let mut i: usize = 0;
    while i < EM_LEN
        invariant
            v@.len() == EM_LEN,
            i <= EM_LEN,
            components_in_range(v@.take(i as int)),
            sum == norm_sq_scaled(v@.take(i as int)),
            sum <= (i as int) * (I24_MAX_SQ as int),
        decreases EM_LEN - i,
    {
        let q: u32 = v[i];
        if q > I24_MAX {
            assert(!components_in_range(v@));
            return false;
        }
        let q2: u64 = 2 * (q as u64);
        let m: u64 = I24_MAX as u64;
        let d: u64 = if q2 >= m { q2 - m } else { m - q2 };
        proof {
            lemma_term_sq_abs(q, d);
            lemma_mul_succ(i as int, I24_MAX_SQ as int);
            assert(v@.take(i + 1).drop_last() =~= v@.take(i as int));
            assert(v@.take(i + 1).last() == v@[i as int]);
        }
        sum = sum + (d as u128) * (d as u128);
        i = i + 1;
    }
    assert(v@.take(EM_LEN as int) =~= v@);
    let msq: u128 = I24_MAX_SQ as u128;
    9801 * msq <= 10000 * sum && 10000 * sum <= 10201 * msq
}

/// An element-for-element copy of an embedding.
pub fn copy_embedding(e: &Embedding) -> (r: Embedding)
    ensures
        r@ == e@,
{
    let mut out: Vec<u32> = Vec::new();
    let mut i: usize = 0;
    while i < e.len()
        invariant
            i <= e@.len(),
            out@.len() == i,
            forall|j: int| 0 <= j < i ==> out@[j] == e@[j],
        decreases e@.len() - i,
    {
        out.push(e[i]);
        i = i + 1;
    }
    proof {
        assert(out@ =~= e@);
    }
    out
}

/// Whether two embeddings hold the same components.
pub fn embeddings_equal(a: &Embedding, b: &Embedding) -> (r: bool)
    ensures
        r == (a@ == b@),
{
    if a.len() != b.len() {
        assert(a@ != b@);
        return false;
    }
    let mut i: usize = 0;
    while i < a.len()
        invariant
            a@.len() == b@.len(),
            i <= a@.len(),
            forall|j: int| 0 <= j < i ==> a@[j] == b@[j],
        decreases a@.len() - i,
    {
        if a[i] != b[i] {
            assert(a@ != b@);
            return false;
        }
        i = i + 1;
    }
    proof {
        assert(a@ =~= b@);
    }
    true
}

/// Exact scaled inner product of the real vectors `a` and `b` stand for:
/// `sum((2*a_i - I24_MAX) * (2*b_i - I24_MAX)) == I24_MAX^2 * <a, b>`.
pub open spec fn dot_scaled(a: Seq<u32>, b: Seq<u32>) -> int
    decreases a.len(),
{
    if a.len() == 0 || b.len() == 0 {
        0
    } else {
        dot_scaled(a.drop_last(), b.drop_last()) + (2 * a.last() - I24_MAX) * (2 * b.last()
            - I24_MAX)
    }
}

/// Inner-product distance as an order key: smaller key means nearer.
/// Equals `I24_MAX^2 * EM_LEN - I24_MAX^2 * <a, b>`, a positive affine image
/// of the true inner-product distance `1 - <a, b>`, so it orders pages
/// exactly as the real metric does.
pub open spec fn ip_distance_key(a: Seq<u32>, b: Seq<u32>) -> int {
    EM_LEN * (I24_MAX as int * I24_MAX as int) - dot_scaled(a, b)
}

proof fn lemma_dot_term_bound(a: u32, b: u32)
    requires
        a <= I24_MAX,
        b <= I24_MAX,
    ensures
        -(I24_MAX_SQ as int) <= (2 * a - I24_MAX) * (2 * b - I24_MAX) <= I24_MAX_SQ,
{
    let x = 2 * a - I24_MAX;
    let y = 2 * b - I24_MAX;
    assert(x * y <= I24_MAX as int * I24_MAX as int && -(I24_MAX as int * I24_MAX as int) <= x * y)
        by (nonlinear_arith)
        requires
            -(I24_MAX as int) <= x <= I24_MAX,
            -(I24_MAX as int) <= y <= I24_MAX,
    ;
}

/// Inner-product distance between two embeddings, as an integer order key
/// (smaller is nearer).
pub fn distance_ip(a: &Embedding, b: &Embedding) -> (r: u64)
    requires
        a@.len() == EM_LEN,
        b@.len() == EM_LEN,
        components_in_range(a@),
        components_in_range(b@),
    ensures
        r == ip_distance_key(a@, b@),
{
    let mut acc: i64 = 0;
    let mut i: usize = 0;
    while i < EM_LEN
        invariant
            a@.len() == EM_LEN,
            b@.len() == EM_LEN,
            components_in_range(a@),
            components_in_range(b@),
            i <= EM_LEN,
            acc == dot_scaled(a@.take(i as int), b@.take(i as int)),
            -((i as int) * (I24_MAX_SQ as int)) <= acc <= (i as int) * (I24_MAX_SQ as int),
        decreases EM_LEN - i,
    {
        let x: i64 = 2 * (a[i] as i64) - (I24_MAX as i64);
        let y: i64 = 2 * (b[i] as i64) - (I24_MAX as i64);
        proof {
            lemma_dot_term_bound(a@[i as int], b@[i as int]);
            lemma_mul_succ(i as int, I24_MAX_SQ as int);
            assert(a@.take(i + 1).drop_last() =~= a@.take(i as int));
            assert(b@.take(i + 1).drop_last() =~= b@.take(i as int));
            assert(a@.take(i + 1).last() == a@[i as int]);
            assert(b@.take(i + 1).last() == b@[i as int]);
        }
        acc = acc + x * y;
        i = i + 1;
    }
    proof {
        assert(a@.take(EM_LEN as int) =~= a@);
        assert(b@.take(EM_LEN as int) =~= b@);
        lemma_mul_succ(383, I24_MAX_SQ as int);
    }
    let scale: i64 = 384 * 0x7FFFFF * 0x7FFFFF;
    assert(scale == EM_LEN * (I24_MAX as int * I24_MAX as int));
    (scale - acc) as u64
}

/// Sum of squared differences of quantized components: an order key for
/// L2 distance, equal to `I24_MAX^2 / 4` times the real squared distance.
pub open spec fn l2_sq_key(a: Seq<u32>, b: Seq<u32>) -> int
    decreases a.len(),
{
    if a.len() == 0 || b.len() == 0 {
        0
    } else {
        l2_sq_key(a.drop_last(), b.drop_last()) + (a.last() - b.last()) * (a.last() - b.last())
    }
}

/// Squared L2 distance between two embeddings, as an integer order key.
pub fn distance_l2_sq(a: &Embedding, b: &Embedding) -> (r: u64)
    requires
        a@.len() == EM_LEN,
        b@.len() == EM_LEN,
        components_in_range(a@),
        components_in_range(b@),
    ensures
        r == l2_sq_key(a@, b@),
{
    let mut acc: u64 = 0;
    let mut i: usize = 0;
    while i < EM_LEN
        invariant
            a@.len() == EM_LEN,
            b@.len() == EM_LEN,
            components_in_range(a@),
            components_in_range(b@),
            i <= EM_LEN,
            acc == l2_sq_key(a@.take(i as int), b@.take(i as int)),
            acc <= (i as int) * (I24_MAX_SQ as int),
        decreases EM_LEN - i,
    {
        let ai: u32 = a[i];
        let bi: u32 = b[i];
        let d: u64 = if ai >= bi { (ai - bi) as u64 } else { (bi - ai) as u64 };
        proof {
            assert((a@[i as int] - b@[i as int]) * (a@[i as int] - b@[i as int]) == d * d)
                by (nonlinear_arith)
                requires
                    d == if a@[i as int] >= b@[i as int] {
                        a@[i as int] - b@[i as int]
                    } else {
                        b@[i as int] - a@[i as int]
                    },
            ;
            assert(d * d <= I24_MAX as u64 * I24_MAX as u64) by (nonlinear_arith)
                requires
                    d <= I24_MAX,
            ;
            lemma_mul_succ(i as int, I24_MAX_SQ as int);
            assert(a@.take(i + 1).drop_last() =~= a@.take(i as int));
            assert(b@.take(i + 1).drop_last() =~= b@.take(i as int));
            assert(a@.take(i + 1).last() == a@[i as int]);
            assert(b@.take(i + 1).last() == b@[i as int]);
        }
        acc = acc + d * d;
        i = i + 1;
    }
    proof {
        assert(a@.take(EM_LEN as int) =~= a@);
        assert(b@.take(EM_LEN as int) =~= b@);
        lemma_mul_succ(383, I24_MAX_SQ as int);
    }
    acc
}

/// Sum of squared differences of two signed byte vectors.
pub open spec fn l2_sq_i8(a: Seq<i8>, b: Seq<i8>) -> int
    decreases a.len(),
{
    if a.len() == 0 || b.len() == 0 {
        0
    } else {
        l2_sq_i8(a.drop_last(), b.drop_last()) + (a.last() - b.last()) * (a.last() - b.last())
    }
}

/// Squared L2 distance between two signed byte vectors.
pub fn distance_i8(a: &[i8; 384], b: &[i8; 384]) -> (r: u32)
    ensures
        r == l2_sq_i8(a@, b@),
{
    let mut acc: u32 = 0;
    let mut i: usize = 0;
    while i < 384
        invariant
            i <= 384,
            acc == l2_sq_i8(a@.take(i as int), b@.take(i as int)),
            acc <= (i as int) * 65025,
        decreases 384 - i,
    {
        let ai: i32 = a[i] as i32;
        let bi: i32 = b[i] as i32;
        let d: i32 = ai - bi;
        proof {
            assert(0 <= d * d <= 65025) by (nonlinear_arith)
                requires
                    -255 <= d <= 255,
            ;
            assert(d * d == (a@[i as int] - b@[i as int]) * (a@[i as int] - b@[i as int]));
            assert(a@.take(i + 1).drop_last() =~= a@.take(i as int));
            assert(b@.take(i + 1).drop_last() =~= b@.take(i as int));
            assert(a@.take(i + 1).last() == a@[i as int]);
            assert(b@.take(i + 1).last() == b@[i as int]);
        }
        acc = acc + (d * d) as u32;
        i = i + 1;
    }
    proof {
        assert(a@.take(384) =~= a@);
        assert(b@.take(384) =~= b@);
    }
    acc
}

} // verus!
