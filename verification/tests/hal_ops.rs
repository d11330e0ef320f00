//! The HAL operations on concrete values.

use witcore::buffer::Buf;
use witcore::ext::FpExt;
use witcore::fp::Fp;
use witcore::hal::{div_ceil, CpuHal, FRI_FOLD};
use witcore::hash::{hash_pair, hash_words, Digest, HashSuiteKind};
use witcore::ntt::bit_rev;

fn fp(x: u32) -> Fp {
    Fp::new(x)
}

fn exf(x: u32) -> FpExt {
    FpExt::from_fp(fp(x))
}

fn hal() -> CpuHal {
    CpuHal::new(HashSuiteKind::Sha256)
}

fn fp_buf(vals: &[u32]) -> Buf<Fp> {
    let v: Vec<Fp> = vals.iter().map(|&x| fp(x)).collect();
    Buf::copy_from("t", &v)
}

#[test]
fn check_basics() {
    let h = hal();
    assert!(h.has_unified_memory());
    assert_eq!(h.get_hash_suite(), HashSuiteKind::Sha256);
    assert_eq!(div_ceil(10, 4), 3);
    assert_eq!(div_ceil(0, 4), 0);
    assert_eq!(div_ceil(8, 4), 2);
    let (grid, block) = h.compute_simple_params(1000);
    assert_eq!(block.x, 256);
    assert!(grid.x * block.x >= 1000);
    let (g2, b2) = h.compute_launch_params(10, 3, 5);
    assert!(b2.x * b2.y <= 128);
    assert!(g2.x * g2.y * g2.z <= 32);
    assert!(b2.x >= 1 && b2.y >= 1 && g2.x >= 1 && g2.y >= 1 && g2.z >= 1);
}

#[test]
fn eltwise_add_elem() {
    let h = hal();
    let a = fp_buf(&[1, 2, 3]);
    let b = fp_buf(&[10, 20, witcore::fp::P - 1]);
    let mut out = h.alloc_elem("out", 3);
    h.eltwise_add_elem(&mut out, &a, &b);
    let v = out.host_view();
    assert_eq!(v[0], fp(11));
    assert_eq!(v[1], fp(22));
    assert_eq!(v[2], fp(2));
}

#[test]
fn eltwise_copy_elem() {
    let h = hal();
    let a = fp_buf(&[4, 5, 6, 7]);
    let mut out = h.alloc_elem("out", 4);
    h.eltwise_copy_elem(&mut out, &a);
    assert_eq!(out.host_view(), a.host_view());
}

#[test]
fn eltwise_sum_extelem() {
    let h = hal();
    // two groups of three extension elements
    let input: Vec<FpExt> = vec![exf(1), exf(2), exf(3), exf(10), exf(20), exf(30)];
    let inb = Buf::copy_from("in", &input);
    let mut out = h.alloc_elem("out", 8);
    h.eltwise_sum_extelem(&mut out, &inb);
    let v = out.host_view();
    // group sums 6 and 60, written as four planes of length two
    assert_eq!(v[0], fp(6));
    assert_eq!(v[1], fp(60));
    for k in 2..8 {
        assert_eq!(v[k], fp(0));
    }
}

#[test]
fn gather_sample() {
    let h = hal();
    let src_vals: Vec<u32> = (0..100).collect();
    let src = fp_buf(&src_vals);
    let mut dst = h.alloc_elem("dst", 5);
    h.gather_sample(&mut dst, &src, 10, 5, 7);
    let v = dst.host_view();
    assert_eq!(v, vec![fp(10), fp(17), fp(24), fp(31), fp(38)]);
}

#[test]
fn prefix_products() {
    let h = hal();
    let vals: Vec<FpExt> = vec![exf(2), exf(3), exf(5), exf(7)];
    let mut io = Buf::copy_from("io", &vals);
    h.prefix_products(&mut io);
    let v = io.host_view();
    assert_eq!(v, vec![exf(2), exf(6), exf(30), exf(210)]);
}

#[test]
fn zk_shift() {
    let h = hal();
    let mut io = fp_buf(&[1, 1, 1, 1]);
    h.zk_shift(&mut io, 1);
    let v = io.host_view();
    assert_eq!(v, vec![fp(1), fp(31), fp(961), fp(29791)]);
}

#[test]
fn fri_fold() {
    let h = hal();
    // one group: sixteen extension values 1..=16, each as four coefficients
    let mut in_vals: Vec<Fp> = Vec::new();
    for i in 0..FRI_FOLD {
        in_vals.push(fp((i + 1) as u32));
        in_vals.push(fp(0));
        in_vals.push(fp(0));
        in_vals.push(fp(0));
    }
    let input = Buf::copy_from("in", &in_vals);
    let mut out = h.alloc_elem("out", 4);
    let mix = exf(3);
    h.fri_fold(&mut out, &input, &mix);
    // expected: v_0 + mix·(v_1 + mix·(...))
    let mut expect = FpExt::zero();
    for i in (0..FRI_FOLD).rev() {
        expect = expect.mul(mix).add(exf((i + 1) as u32));
    }
    let v = out.host_view();
    assert_eq!(v[0], expect.c0);
    assert_eq!(v[1], expect.c1);
    assert_eq!(v[2], expect.c2);
    assert_eq!(v[3], expect.c3);
}

#[test]
fn mix_poly_coeffs() {
    let h = hal();
    // three input polynomials of length two, two output buckets
    let input = fp_buf(&[1, 2, 3, 4, 5, 6]);
    let combos_v: Vec<u32> = vec![0, 1, 0];
    let combos = Buf::copy_from("combos", &combos_v);
    let ms = exf(2);
    let mx = exf(5);
    let mut out = h.alloc_extelem("out", 4);
    h.mix_poly_coeffs(&mut out, &ms, &mx, &input, &combos, 3, 2);
    let v = out.host_view();
    // bucket 0 <- ms·in0 + ms·mx²·in2 ; bucket 1 <- ms·mx·in1
    for k in 0..2 {
        let e0 = ms.scale(fp(1 + k as u32)).add(ms.mul(mx).mul(mx).scale(fp(5 + k as u32)));
        let e1 = ms.mul(mx).scale(fp(3 + k as u32));
        assert_eq!(v[k], e0);
        assert_eq!(v[2 + k], e1);
    }
}

#[test]
fn batch_evaluate_any() {
    let h = hal();
    // two polynomials of four coefficients each
    let coeffs = fp_buf(&[1, 2, 3, 4, 5, 6, 7, 8]);
    let which_v: Vec<u32> = vec![1, 0];
    let which = Buf::copy_from("which", &which_v);
    let xs_v: Vec<FpExt> = vec![exf(2), exf(3)];
    let xs = Buf::copy_from("xs", &xs_v);
    let mut out = h.alloc_extelem("out", 2);
    h.batch_evaluate_any(&coeffs, 2, &which, &xs, &mut out);
    let v = out.host_view();
    // 5 + 6·2 + 7·4 + 8·8 = 109 ; 1 + 2·3 + 3·9 + 4·27 = 142
    assert_eq!(v[0], exf(109));
    assert_eq!(v[1], exf(142));
}

#[test]
fn batch_bit_reverse() {
    let h = hal();
    let mut io = fp_buf(&[0, 1, 2, 3, 4, 5, 6, 7]);
    h.batch_bit_reverse(&mut io, 1);
    let v = io.host_view();
    let expect: Vec<Fp> = vec![0u32, 4, 2, 6, 1, 5, 3, 7].into_iter().map(fp).collect();
    assert_eq!(v, expect);
    // applying it twice is the identity
    h.batch_bit_reverse(&mut io, 1);
    let v2 = io.host_view();
    assert_eq!(v2, (0..8u32).map(fp).collect::<Vec<_>>());
}

#[test]
fn bit_rev_values() {
    assert_eq!(bit_rev(3, 1), 4);
    assert_eq!(bit_rev(3, 6), 3);
    assert_eq!(bit_rev(4, 1), 8);
    for k in 0..32 {
        assert_eq!(bit_rev(5, bit_rev(5, k)), k);
    }
}

#[test]
fn batch_expand_into_evaluate_ntt() {
    let h = hal();
    // round trip: forward transform then interpolation restores the input
    let input = fp_buf(&[1, 2, 3, 4, 5, 6, 7, 8]);
    let mut out = h.alloc_elem("out", 8);
    h.batch_expand_into_evaluate_ntt(&mut out, &input, 1, 0);
    h.batch_interpolate_ntt(&mut out, 1);
    assert_eq!(out.host_view(), input.host_view());
}

#[test]
fn batch_interpolate_ntt() {
    let h = hal();
    // expansion by 2: the interpolated coefficients are the inputs padded
    // with zeros
    let input = fp_buf(&[9, 8, 7, 6]);
    let mut out = h.alloc_elem("out", 8);
    h.batch_expand_into_evaluate_ntt(&mut out, &input, 1, 1);
    h.batch_interpolate_ntt(&mut out, 1);
    let v = out.host_view();
    assert_eq!(&v[0..4], &input.host_view()[..]);
    for k in 4..8 {
        assert_eq!(v[k], fp(0));
    }
}

#[test]
fn hash_rows_sha256() {
    let h = hal();
    // 3 x 2 column-major matrix; row r hashes the strided column
    let matrix = fp_buf(&[1, 2, 3, 4, 5, 6]);
    let mut out = h.alloc_digest("out", 2);
    h.hash_rows(&mut out, &matrix);
    let v = out.host_view();
    let col0: Vec<u32> = vec![1, 3, 5];
    let col1: Vec<u32> = vec![2, 4, 6];
    assert_eq!(v[0], hash_words(&col0));
    assert_eq!(v[1], hash_words(&col1));
}

#[test]
fn hash_fold_sha256() {
    let h = hal();
    let mut leaves: Vec<Digest> = Vec::new();
    for i in 0..16u32 {
        leaves.push(Digest { words: [i, i + 1, 0, 0, 0, 0, 0, 0] });
    }
    let mut io = Buf::copy_from("io", &leaves);
    let before = io.host_view();
    h.hash_fold(&mut io, 8, 4);
    let v = io.host_view();
    for j in 4..8usize {
        assert_eq!(v[j], hash_pair(&before[2 * j], &before[2 * j + 1]));
    }
    // everything outside the output range is untouched
    for j in 0..4usize {
        assert_eq!(v[j], before[j]);
    }
    for j in 8..16usize {
        assert_eq!(v[j], before[j]);
    }
}

#[test]
fn hash_fold_tower_root() {
    let h = hal();
    let mut buf: Vec<Digest> = Vec::new();
    for i in 0..8u32 {
        buf.push(Digest { words: [7 * i, 0, 0, 0, 0, 0, 0, 1] });
    }
    let mut io = Buf::copy_from("io", &buf);
    let leaves = io.host_view();
    h.hash_fold_tower(&mut io, 2, 4);
    let v = io.host_view();
    let n01 = hash_pair(&leaves[4], &leaves[5]);
    let n23 = hash_pair(&leaves[6], &leaves[7]);
    let root = hash_pair(&n01, &n23);
    assert_eq!(v[2], n01);
    assert_eq!(v[3], n23);
    assert_eq!(v[1], root);
}
