//! Field, extension-field, buffer, and hashing behaviour on concrete values.

use witcore::buffer::Buf;
use witcore::ext::FpExt;
use witcore::fp::{Fp, INVALID_REPR, P};
use witcore::hash::{hash_pair, hash_words, Digest};

fn fp(x: u32) -> Fp {
    Fp::new(x)
}

#[test]
fn fp_add_sub_mul() {
    assert_eq!(fp(1).add(fp(2)).repr, 3);
    assert_eq!(fp(P - 1).add(fp(1)).repr, 0);
    assert_eq!(fp(0).sub(fp(1)).repr, P - 1);
    assert_eq!(fp(7).mul(fp(6)).repr, 42);
    // (P - 1)^2 = 1 mod P
    assert_eq!(fp(P - 1).mul(fp(P - 1)).repr, 1);
}

#[test]
fn fp_pow_and_inv() {
    assert_eq!(fp(2).pow(10).repr, 1024);
    assert_eq!(fp(5).pow(0).repr, 1);
    let x = fp(123_456);
    let xi = x.inv();
    assert_eq!(x.mul(xi).repr, 1);
}

#[test]
fn fp_valid_or_zero() {
    assert_eq!(fp(17).valid_or_zero().repr, 17);
    assert_eq!(Fp::invalid().valid_or_zero().repr, 0);
    assert_eq!(Fp { repr: INVALID_REPR }.valid_or_zero().repr, 0);
    // idempotent
    let v = Fp::invalid().valid_or_zero();
    assert_eq!(v.valid_or_zero(), v);
}

#[test]
fn ext_mul_against_base_embedding() {
    // embedding is a ring homomorphism: (3)·(5) = (15)
    let a = FpExt::from_fp(fp(3));
    let b = FpExt::from_fp(fp(5));
    let c = a.mul(b);
    assert_eq!(c, FpExt::from_fp(fp(15)));
    // x · x = x^2, no reduction yet
    let x = FpExt::new(fp(0), fp(1), fp(0), fp(0));
    let x2 = x.mul(x);
    assert_eq!(x2, FpExt::new(fp(0), fp(0), fp(1), fp(0)));
    // x^2 · x^2 = x^4 = -11
    let x4 = x2.mul(x2);
    assert_eq!(x4, FpExt::new(fp(P - 11), fp(0), fp(0), fp(0)));
}

#[test]
fn buffer_slice_views_match() {
    let vals: Vec<Fp> = (0..10u32).map(fp).collect();
    let b = Buf::copy_from("b", &vals);
    assert_eq!(b.size(), 10);
    let s = b.slice(3, 4);
    let sv = s.host_view();
    let bv = b.host_view();
    assert_eq!(sv.len(), 4);
    for i in 0..4 {
        assert_eq!(sv[i], bv[3 + i]);
    }
    assert_eq!(b.name(), "b");
    assert_eq!(b.get_at(7), fp(7));
}

#[test]
fn buffer_set_then_get() {
    let mut b = Buf::new_filled("z", 5, fp(0));
    b.set_at(2, fp(99));
    assert_eq!(b.get_at(2), fp(99));
    assert_eq!(b.get_at(1), fp(0));
}

#[test]
fn hash_words_matches_sha256() {
    // the trusted wrapper must agree with sha2 run directly on the same bytes
    let ws: Vec<u32> = vec![1, 2, 3, 4];
    let d = hash_words(&ws);
    let mut h = <sha2::Sha256 as sha2::Digest>::new();
    for w in &ws {
        sha2::Digest::update(&mut h, w.to_le_bytes());
    }
    let out = sha2::Digest::finalize(h);
    for i in 0..8 {
        let expect = u32::from_le_bytes([out[4 * i], out[4 * i + 1], out[4 * i + 2], out[4 * i
            + 3]]);
        assert_eq!(d.words[i], expect);
    }
}

#[test]
fn hash_pair_is_order_sensitive() {
    let a = Digest { words: [1, 0, 0, 0, 0, 0, 0, 0] };
    let b = Digest { words: [2, 0, 0, 0, 0, 0, 0, 0] };
    let ab = hash_pair(&a, &b);
    let ba = hash_pair(&b, &a);
    assert_ne!(ab, ba);
    assert_ne!(ab, a);
    assert_ne!(ab, b);
    // deterministic
    assert_eq!(ab, hash_pair(&a, &b));
}
