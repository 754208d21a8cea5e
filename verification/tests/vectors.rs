use dawnsearch::codec::{from_i24_bytes, raw_bytes, from_raw_bytes, to_i24_bytes};
use dawnsearch::vector::{distance_i8, distance_ip, distance_l2_sq, embeddings_equal, is_normalized, CodecError, EM_LEN, I24_MAX};

/// A well-formed embedding: component `hot` stands for 1.0, the rest for
/// the value nearest 0.
fn basis(hot: usize) -> Vec<u32> {
    let mut v: Vec<u32> = Vec::new();
    for i in 0..EM_LEN {
        if i == hot {
            v.push(I24_MAX);
        } else {
            v.push((I24_MAX - 1) / 2);
        }
    }
    v
}

fn quantize(xs: &[f32]) -> Vec<u32> {
    xs.iter().map(|x| ((((*x as f64) + 1.0) / 2.0) * (I24_MAX as f64)).round() as u32).collect()
}

fn dequantize(qs: &[u32]) -> Vec<f32> {
    qs.iter().map(|q| ((*q as f64) / (I24_MAX as f64) * 2.0 - 1.0) as f32).collect()
}

#[test]
fn unit_basis_vector_is_normalized() {
    let v = basis(0);
    assert!(is_normalized(&v));
}

#[test]
fn wrong_length_is_not_normalized() {
    let v: Vec<u32> = vec![I24_MAX; 10];
    assert!(!is_normalized(&v));
}

#[test]
fn out_of_range_component_is_not_normalized() {
    let mut v = basis(0);
    v[5] = I24_MAX + 1;
    assert!(!is_normalized(&v));
}

#[test]
fn overlong_vector_is_not_normalized() {
    // every component standing for 1.0: norm far above the band
    let v: Vec<u32> = vec![I24_MAX; EM_LEN];
    assert!(!is_normalized(&v));
}

#[test]
fn zero_vector_is_not_normalized() {
    let v: Vec<u32> = vec![(I24_MAX - 1) / 2; EM_LEN];
    assert!(!is_normalized(&v));
}

#[test]
fn i24_round_trip_preserves_vector() {
    let v = basis(7);
    let bytes = to_i24_bytes(&v);
    assert_eq!(bytes.len(), 3 * EM_LEN);
    let back = from_i24_bytes(&bytes).unwrap();
    assert!(embeddings_equal(&v, &back));
}

#[test]
fn i24_rejects_wrong_length() {
    let bytes: Vec<u8> = vec![0u8; 100];
    assert!(matches!(from_i24_bytes(&bytes), Err(CodecError::WrongLength)));
}

#[test]
fn i24_rejects_non_normalized() {
    let v: Vec<u32> = vec![I24_MAX; EM_LEN];
    let mut bytes: Vec<u8> = Vec::new();
    for q in &v {
        bytes.push((q & 0xFF) as u8);
        bytes.push(((q >> 8) & 0xFF) as u8);
        bytes.push(((q >> 16) & 0xFF) as u8);
    }
    assert!(matches!(from_i24_bytes(&bytes), Err(CodecError::NotNormalized)));
}

#[test]
fn raw_round_trip_preserves_vector() {
    let v = basis(100);
    let bytes = raw_bytes(&v);
    assert_eq!(bytes.len(), 4 * EM_LEN);
    let back = from_raw_bytes(&bytes).unwrap();
    assert!(embeddings_equal(&v, &back));
}

#[test]
fn float_codec_round_trip_within_tolerance() {
    // any unit vector: all components 1/sqrt(D)
    let c = 1.0f32 / (EM_LEN as f32).sqrt();
    let xs: Vec<f32> = vec![c; EM_LEN];
    let v = quantize(&xs);
    assert!(is_normalized(&v));
    let back = from_i24_bytes(&to_i24_bytes(&v)).unwrap();
    let ys = dequantize(&back);
    let tol = 2.0f64 / ((1u32 << 23) as f64 - 1.0);
    let mut norm_sq = 0.0f64;
    for i in 0..EM_LEN {
        assert!(((ys[i] - xs[i]) as f64).abs() <= tol);
        norm_sq += (ys[i] as f64) * (ys[i] as f64);
    }
    let norm = norm_sq.sqrt();
    assert!((norm - 1.0).abs() <= 0.01);
}

#[test]
fn distance_ip_orders_by_similarity() {
    let a = basis(0);
    let b = basis(1);
    // identical vectors are nearer than different ones
    assert!(distance_ip(&a, &a) < distance_ip(&a, &b));
    assert_eq!(distance_ip(&a, &b), distance_ip(&b, &a));
}

#[test]
fn distance_l2_of_equal_vectors_is_zero() {
    let a = basis(3);
    assert_eq!(distance_l2_sq(&a, &a), 0);
    assert!(distance_l2_sq(&a, &basis(4)) > 0);
}

#[test]
fn distance_i8_exact_value() {
    let a: [i8; 384] = [0; 384];
    let mut b: [i8; 384] = [0; 384];
    b[0] = 3;
    b[1] = -4;
    // 3^2 + 4^2 = 25
    assert_eq!(distance_i8(&a, &b), 25);
    assert_eq!(distance_i8(&a, &a), 0);
}
