//! Number-theoretic transforms and bit-reversal reindexing.
//!
//! Rows are power-of-two sized. The forward transform takes coefficients in
//! natural order to evaluations in bit-reversed order; the inverse
//! transform undoes it with the inverse root and a `1/n` scale.

use vstd::prelude::*;
use vstd::arithmetic::power::pow;
use vstd::arithmetic::power2::{pow2, is_pow2, lemma_pow2_unfold, lemma2_to64};
use crate::buffer::Buf;
use crate::ext::fmul;
use crate::fp::{fpv, Fp, P};

verus! {

/// Bit reversal of the low `bits` bits of `k`: bit `i` of `k` becomes bit
/// `bits - 1 - i` of the result.
pub open spec fn brev(bits: nat, k: int) -> int
    decreases bits,
{
    if bits == 0 {
        0
    } else {
        brev((bits - 1) as nat, k / 2) + (k % 2) * pow2((bits - 1) as nat)
    }
}

/// The number of halvings to reach one: the exact log2 of a power of two.
pub open spec fn log2(n: int) -> nat
    decreases n,
{
    if n <= 1 {
        0
    } else {
        1 + log2(n / 2)
    }
}

/// A reversal stays inside the `bits`-bit range.
pub proof fn lemma_brev_range(bits: nat, k: int)
    requires
        k >= 0,
    ensures
        0 <= brev(bits, k) < pow2(bits),
    decreases bits,
{
    if bits == 0 {
        lemma2_to64();
    } else {
        lemma_brev_range((bits - 1) as nat, k / 2);
        lemma_pow2_unfold(bits);
        vstd::arithmetic::div_mod::lemma_mod_bound(k, 2);
        vstd::arithmetic::div_mod::lemma_div_pos_is_pos(k, 2);
        assert((k % 2) * pow2((bits - 1) as nat) <= pow2((bits - 1) as nat)) by (nonlinear_arith)
            requires
                0 <= k % 2 <= 1,
                pow2((bits - 1) as nat) >= 0,
        ;
    }
}

/// Reversing a value with a fresh top bit appends that bit at the bottom.
proof fn lemma_brev_top(bits: nat, a: int, b: int)
    requires
        bits >= 1,
        0 <= a < pow2((bits - 1) as nat),
        0 <= b <= 1,
    ensures
        brev(bits, a + b * pow2((bits - 1) as nat)) == brev((bits - 1) as nat, a) * 2 + b,
    decreases bits,
{
    lemma2_to64();
    if bits == 1 {
        assert(a == 0);
        assert(brev(1, b) == brev(0, b / 2) + (b % 2) * pow2(0));
        vstd::arithmetic::div_mod::lemma_small_mod(b as nat, 2);
        vstd::arithmetic::div_mod::lemma_basic_div(b, 2);
    } else {
        let bm1 = (bits - 1) as nat;
        let bm2 = (bits - 2) as nat;
        let j = a + b * pow2(bm1);
        lemma_pow2_unfold(bm1);
        assert(b * pow2(bm1) == (b * pow2(bm2)) * 2) by (nonlinear_arith)
            requires
                pow2(bm1) == 2 * pow2(bm2),
        ;
        vstd::arithmetic::div_mod::lemma_hoist_over_denominator(a, b * pow2(bm2), 2);
        assert(j / 2 == a / 2 + b * pow2(bm2));
        assert(j % 2 == a % 2) by {
            vstd::arithmetic::div_mod::lemma_mod_multiples_vanish(b * pow2(bm2), a, 2);
            assert((b * pow2(bm2)) * 2 + a == 2 * (b * pow2(bm2)) + a) by (nonlinear_arith);
        };
        vstd::arithmetic::div_mod::lemma_multiply_divide_lt(a, 2, pow2(bm2) as int);
        vstd::arithmetic::div_mod::lemma_div_pos_is_pos(a, 2);
        lemma_brev_top(bm1, a / 2, b);
        // both sides expand to brev(bits - 2, a / 2) * 2 + b + (a % 2) * pow2(bits - 1)
        assert(brev(bits, j) == brev(bm1, j / 2) + (j % 2) * pow2(bm1));
        assert(brev(bm1, a) == brev(bm2, a / 2) + (a % 2) * pow2(bm2));
        assert((brev(bm2, a / 2) + (a % 2) * pow2(bm2)) * 2 == brev(bm2, a / 2) * 2 + (a % 2)
            * pow2(bm1)) by (nonlinear_arith)
            requires
                pow2(bm1) == 2 * pow2(bm2),
        ;
    }
}

/// Bit reversal is an involution on the `bits`-bit range.
pub proof fn lemma_brev_involution(bits: nat, k: int)
    requires
        0 <= k < pow2(bits),
    ensures
        brev(bits, brev(bits, k)) == k,
    decreases bits,
{
    lemma2_to64();
    if bits == 0 {
    } else {
        let bm1 = (bits - 1) as nat;
        let a = brev(bm1, k / 2);
        let b = k % 2;
        vstd::arithmetic::div_mod::lemma_mod_bound(k, 2);
        vstd::arithmetic::div_mod::lemma_div_pos_is_pos(k, 2);
        lemma_brev_range(bm1, k / 2);
        lemma_pow2_unfold(bits);
        vstd::arithmetic::div_mod::lemma_multiply_divide_lt(k, 2, pow2(bm1) as int);
        lemma_brev_top(bits, a, b);
        lemma_brev_involution(bm1, k / 2);
        vstd::arithmetic::div_mod::lemma_fundamental_div_mod(k, 2);
    }
}

/// The exact log of a power of two.
pub proof fn lemma_log2_pow2(b: nat)
    ensures
        log2(pow2(b) as int) == b,
    decreases b,
{
    lemma2_to64();
    if b > 0 {
        lemma_pow2_unfold(b);
        vstd::arithmetic::power2::lemma_pow2_pos((b - 1) as nat);
        assert(pow2(b) as int / 2 == pow2((b - 1) as nat) as int) by {
            vstd::arithmetic::div_mod::lemma_div_multiples_vanish(
                pow2((b - 1) as nat) as int,
                2,
            );
        };
        lemma_log2_pow2((b - 1) as nat);
    }
}

/// The exact log2 of a power-of-two value.
pub fn log2_exact(n: usize) -> (bits: usize)
    requires
        is_pow2(n as int),
        n <= 0x8000000,
    ensures
        n == pow2(bits as nat),
        bits as nat == log2(n as int),
        bits <= 27,
{
    let mut bits: usize = 0;
    let mut x: usize = n;
    proof {
        vstd::arithmetic::power2::lemma2_to64();
        assert(pow2(0) == 1);
        reveal(is_pow2);
    }
    while x > 1
        invariant
            x >= 1,
            is_pow2(x as int),
            n <= 0x8000000,
            bits <= 27,
            n as int == x as int * pow2(bits as nat),
            log2(n as int) == bits as nat + log2(x as int),
        decreases x,
    {
        proof {
            reveal(is_pow2);
            assert(x as int % 2 == 0);
            assert(pow2(28) == 0x10000000) by {
                vstd::arithmetic::power2::lemma_pow2_adds(27, 1);
                lemma2_to64();
                assert(pow2(27) == 0x8000000) by {
                    vstd::arithmetic::power2::lemma_pow2_adds(26, 1);
                    lemma2_to64();
                };
            };
            lemma_pow2_unfold((bits + 1) as nat);
            vstd::arithmetic::power2::lemma_pow2_pos(bits as nat);
            assert(pow2((bits + 1) as nat) <= n as int) by (nonlinear_arith)
                requires
                    x >= 2,
                    n as int == x as int * pow2(bits as nat),
                    pow2((bits + 1) as nat) == 2 * pow2(bits as nat),
                    pow2(bits as nat) >= 0,
                ;
            if bits + 1 > 28 {
                vstd::arithmetic::power2::lemma_pow2_strictly_increases(28, (bits + 1) as nat);
            }
            if bits + 1 > 27 {
                assert(pow2((bits + 1) as nat) >= 0x10000000);
                assert(false);
            }
            assert(x as int == 2 * (x as int / 2)) by {
                vstd::arithmetic::div_mod::lemma_fundamental_div_mod(x as int, 2);
            };
            assert((x as int / 2) * (2 * pow2(bits as nat)) == x as int * pow2(bits as nat))
                by (nonlinear_arith)
                requires
                    x as int == 2 * (x as int / 2),
            ;
        }
        x = x / 2;
        bits += 1;
    }
    proof {
        assert(x == 1);
        reveal(is_pow2);
    }
    bits
}

/// Reverse the low `bits` bits of `k`.
pub fn bit_rev(bits: usize, k: usize) -> (r: usize)
    requires
        bits <= 27,
    ensures
        r == brev(bits as nat, k as int),
        r < pow2(bits as nat),
{
    let mut r: usize = 0;
    let mut kk: usize = k;
    let mut b: usize = 0;
    proof {
        lemma2_to64();
    }
    while b < bits
        invariant
            b <= bits,
            bits <= 27,
            r < pow2(b as nat),
            brev(bits as nat, k as int) == r * pow2((bits - b) as nat) + brev(
                (bits - b) as nat,
                kk as int,
            ),
        decreases bits - b,
    {
        let ghost m = (bits - b) as nat;
        proof {
            lemma_pow2_unfold(m);
            lemma_pow2_unfold((b + 1) as nat);
            vstd::arithmetic::div_mod::lemma_mod_bound(kk as int, 2);
            assert((2 * r + kk as int % 2) * pow2((m - 1) as nat) + brev(
                (m - 1) as nat,
                kk as int / 2,
            ) == r * pow2(m) + brev(m, kk as int)) by (nonlinear_arith)
                requires
                    pow2(m) == 2 * pow2((m - 1) as nat),
                    brev(m, kk as int) == brev((m - 1) as nat, kk as int / 2) + (kk as int % 2)
                        * pow2((m - 1) as nat),
            ;
            assert(2 * r + 1 < pow2((b + 1) as nat)) by (nonlinear_arith)
                requires
                    r < pow2(b as nat),
                    pow2((b + 1) as nat) == 2 * pow2(b as nat),
            ;
            vstd::arithmetic::power2::lemma_pow2_pos(b as nat);
            if (b + 1) as nat <= 27 {
                if ((b + 1) as nat) < 27 {
                    vstd::arithmetic::power2::lemma_pow2_strictly_increases((b + 1) as nat, 27);
                }
                assert(pow2(27) == 0x8000000) by {
                    vstd::arithmetic::power2::lemma_pow2_adds(26, 1);
                    lemma2_to64();
                };
            }
        }
        r = 2 * r + (kk % 2);
        kk = kk / 2;
        b += 1;
    }
    proof {
        lemma2_to64();
        assert(brev(0, kk as int) == 0);
        assert(r as int * pow2(0) == r as int) by (nonlinear_arith)
            requires
                pow2(0) == 1,
        ;
    }
    r
}

/// Horner evaluation of a base-field polynomial at a base-field point.
pub open spec fn poly_eval_fp(s: Seq<Fp>, x: Fp) -> Fp
    decreases s.len(),
{
    if s.len() == 0 {
        Fp { repr: 0u32 }
    } else {
        crate::ext::fadd(fmul(poly_eval_fp(s.drop_first(), x), x), s[0])
    }
}

/// The order-`2^bits` forward root of unity: the BabyBear multiplicative
/// generator 31 raised to `15 · 2^(27 - bits)`.
pub open spec fn rou_fwd_spec(bits: nat) -> Fp {
    fpv(pow(fpv(pow(31, 15)).repr as int, pow2((27 - bits) as nat)))
}

/// `x^e` in the field.
pub open spec fn fp_powf(x: Fp, e: nat) -> Fp {
    fpv(pow(x.repr as int, e))
}

/// The multiplicative inverse by Fermat's little theorem.
pub open spec fn fp_invf(x: Fp) -> Fp {
    fpv(pow(x.repr as int, (P - 2) as nat))
}

/// Horner evaluation of the coefficient row at `[base, base + count)`.
fn eval_fp_row(coeffs: &Vec<Fp>, base: usize, count: usize, x: Fp) -> (r: Fp)
    requires
        base + count <= coeffs@.len(),
        x.is_valid(),
        forall|i: int| 0 <= i < coeffs@.len() ==> (#[trigger] coeffs@[i]).is_valid(),
    ensures
        r == poly_eval_fp(coeffs@.subrange(base as int, base as int + count as int), x),
        r.is_valid(),
{
    let mlen: usize = coeffs.len();
    let ghost row = coeffs@.subrange(base as int, base as int + count as int);
    let mut acc = Fp::zero();
    let mut j: usize = count;
    while j > 0
        invariant
            j <= count,
            mlen == coeffs@.len(),
            base + count <= mlen,
            x.is_valid(),
            row == coeffs@.subrange(base as int, base as int + count as int),
            acc == poly_eval_fp(row.skip(j as int), x),
            acc.is_valid(),
            forall|i: int| 0 <= i < coeffs@.len() ==> (#[trigger] coeffs@[i]).is_valid(),
        decreases j,
    {
        let c = coeffs[base + j - 1];
        proof {
            assert(row[j - 1] == coeffs@[base + j - 1]);
            assert(row.skip(j - 1).drop_first() =~= row.skip(j as int));
            assert(row.skip(j - 1)[0] == row[j - 1]);
        }
        acc = acc.mul(x).add(c);
        j -= 1;
    }
    proof {
        assert(row.skip(0) =~= row);
    }
    acc
}

/// The order-`2^bits` forward root of unity.
pub fn rou_fwd(bits: usize) -> (r: Fp)
    requires
        bits <= 27,
    ensures
        r == rou_fwd_spec(bits as nat),
        r.is_valid(),
{
    let base = Fp::new(31).pow(15);
    let sh: usize = 27 - bits;
    proof {
        assert(pow2((27 - bits) as nat) <= pow2(27)) by {
            if ((27 - bits) as nat) < 27 {
                vstd::arithmetic::power2::lemma_pow2_strictly_increases(
                    (27 - bits) as nat,
                    27,
                );
            }
        };
        assert(pow2(27) == 0x8000000) by {
            vstd::arithmetic::power2::lemma_pow2_adds(26, 1);
            lemma2_to64();
        };
        crate::fp::lemma_fpv_valid(pow(31, 15));
    }
    let e: u32 = 1u32 << (sh as u32);
    proof {
        vstd::bits::lemma_u32_shl_is_mul(1u32, sh as u32);
    }
    base.pow(e)
}

impl crate::hal::CpuHal {
    /// In-place bit-reversal of each row: element `k` of a row moves to
    /// position `brev(k)`.
    pub fn batch_bit_reverse(&self, io: &mut Buf<Fp>, count: usize)
        requires
            count > 0,
            old(io)@.len() == count * (old(io)@.len() as int / count as int),
            is_pow2(old(io)@.len() as int / count as int),
            old(io)@.len() as int / count as int <= 0x8000000,
        ensures
            final(io)@.len() == old(io)@.len(),
            forall|idx: int|
                0 <= idx < old(io)@.len() ==> {
                    let row = old(io)@.len() as int / count as int;
                    (#[trigger] final(io)@[idx]) == old(io)@[(idx / row) * row + brev(
                        log2(row),
                        idx % row,
                    )]
                },
    {
        let n: usize = io.size();
        let row: usize = n / count;
        let bits: usize = log2_exact(row);
        let tmp = io.host_view();
        proof {
            vstd::arithmetic::div_mod::lemma_fundamental_div_mod(n as int, count as int);
            lemma_log2_pow2(bits as nat);
            vstd::arithmetic::power2::lemma_pow2_pos(bits as nat);
        }
        let mut idx: usize = 0;
        while idx < n
            invariant
                idx <= n,
                count > 0,
                row > 0,
                n == io@.len(),
                io@.len() == old(io)@.len(),
                tmp@ == old(io)@,
                row == n as int / count as int,
                n == count * row,
                row == pow2(bits as nat),
                bits as nat == log2(row as int),
                bits <= 27,
                forall|t: int|
                    0 <= t < idx ==> (#[trigger] io@[t]) == old(io)@[(t / (row as int)) * row
                        + brev(log2(row as int), t % (row as int))],
                forall|t: int| idx <= t < n ==> io@[t] == old(io)@[t],
            decreases n - idx,
        {
            proof {
                vstd::arithmetic::div_mod::lemma_fundamental_div_mod(idx as int, row as int);
                vstd::arithmetic::div_mod::lemma_mod_bound(idx as int, row as int);
                vstd::arithmetic::div_mod::lemma_div_pos_is_pos(idx as int, row as int);
                assert(n as int == (row as int) * (count as int)) by (nonlinear_arith)
                    requires
                        n as int == (count as int) * (row as int),
                ;
                vstd::arithmetic::div_mod::lemma_multiply_divide_lt(
                    idx as int,
                    row as int,
                    count as int,
                );
            }
            let j: usize = idx / row;
            let k: usize = idx % row;
            let r = bit_rev(bits, k);
            proof {
                vstd::arithmetic::mul::lemma_mul_inequality(
                    j as int + 1,
                    count as int,
                    row as int,
                );
                assert((j + 1) as int * (row as int) == j as int * (row as int) + row)
                    by (nonlinear_arith);
            }
            let v = tmp[j * row + r];
            io.set_at(idx, v);
            idx += 1;
        }
    }

    /// Zero-pad each coefficient row by `2^expand_bits` and evaluate it:
    /// output position `i` of a row holds the row polynomial evaluated at
    /// the forward root raised to `brev(i)` — natural-order input,
    /// bit-reversed output. Padding with zeros leaves the polynomial, and
    /// so the evaluations, unchanged.
    pub fn batch_expand_into_evaluate_ntt(
        &self,
        output: &mut Buf<Fp>,
        input: &Buf<Fp>,
        poly_count: usize,
        expand_bits: usize,
    )
        requires
            poly_count > 0,
            old(output)@.len() == poly_count * (old(output)@.len() as int / poly_count as int),
            input@.len() == poly_count * (input@.len() as int / poly_count as int),
            old(output)@.len() as int / poly_count as int == (input@.len() as int
                / poly_count as int) * pow2(expand_bits as nat),
            is_pow2(old(output)@.len() as int / poly_count as int),
            old(output)@.len() as int / poly_count as int <= 0x4000000,
            forall|i: int| 0 <= i < input@.len() ==> (#[trigger] input@[i]).is_valid(),
        ensures
            final(output)@.len() == old(output)@.len(),
            forall|idx: int|
                0 <= idx < old(output)@.len() ==> {
                    let out_size = old(output)@.len() as int / poly_count as int;
                    let in_size = input@.len() as int / poly_count as int;
                    let j = idx / out_size;
                    let i = idx % out_size;
                    (#[trigger] final(output)@[idx]) == poly_eval_fp(
                        input@.subrange(j * in_size, j * in_size + in_size),
                        fp_powf(rou_fwd_spec(log2(out_size)), brev(log2(out_size), i) as nat),
                    )
                },
    {
        let n: usize = output.size();
        let m: usize = input.size();
        let out_size: usize = n / poly_count;
        let in_size: usize = m / poly_count;
        let bits: usize = log2_exact(out_size);
        let w = rou_fwd(bits);
        let tmp = input.host_view();
        proof {
            lemma_log2_pow2(bits as nat);
            vstd::arithmetic::power2::lemma_pow2_pos(bits as nat);
        }
        let mut idx: usize = 0;
        while idx < n
            invariant
                idx <= n,
                poly_count > 0,
                out_size > 0,
                n == output@.len(),
                output@.len() == old(output)@.len(),
                m == input@.len(),
                tmp@ == input@,
                out_size == n as int / poly_count as int,
                in_size == m as int / poly_count as int,
                n == poly_count * out_size,
                m == poly_count * in_size,
                out_size == pow2(bits as nat),
                bits as nat == log2(out_size as int),
                bits <= 27,
                w == rou_fwd_spec(bits as nat),
                w.is_valid(),
                forall|i: int| 0 <= i < input@.len() ==> (#[trigger] input@[i]).is_valid(),
                forall|t: int|
                    0 <= t < idx ==> {
                        let j = t / (out_size as int);
                        let i = t % (out_size as int);
                        (#[trigger] output@[t]) == poly_eval_fp(
                            input@.subrange(
                                j * (in_size as int),
                                j * (in_size as int) + in_size,
                            ),
                            fp_powf(
                                rou_fwd_spec(log2(out_size as int)),
                                brev(log2(out_size as int), i) as nat,
                            ),
                        )
                    },
            decreases n - idx,
        {
            proof {
                vstd::arithmetic::div_mod::lemma_mod_bound(idx as int, out_size as int);
                vstd::arithmetic::div_mod::lemma_div_pos_is_pos(idx as int, out_size as int);
                assert(n as int == (out_size as int) * (poly_count as int)) by (nonlinear_arith)
                    requires
                        n as int == (poly_count as int) * (out_size as int),
                ;
                vstd::arithmetic::div_mod::lemma_multiply_divide_lt(
                    idx as int,
                    out_size as int,
                    poly_count as int,
                );
            }
            let j: usize = idx / out_size;
            let k: usize = idx % out_size;
            let r = bit_rev(bits, k);
            let xi = w.pow(r as u32);
            proof {
                vstd::arithmetic::mul::lemma_mul_inequality(
                    j as int + 1,
                    poly_count as int,
                    in_size as int,
                );
                assert((j + 1) as int * (in_size as int) == j as int * (in_size as int) + in_size)
                    by (nonlinear_arith);
                assert(pow2(bits as nat) <= pow2(27)) by {
                    if (bits as nat) < 27 {
                        vstd::arithmetic::power2::lemma_pow2_strictly_increases(bits as nat, 27);
                    }
                };
                assert(pow2(27) == 0x8000000) by {
                    vstd::arithmetic::power2::lemma_pow2_adds(26, 1);
                    lemma2_to64();
                };
            }
            let v = eval_fp_row(&tmp, j * in_size, in_size, xi);
            output.set_at(idx, v);
            idx += 1;
        }
    }

    /// In-place inverse transform: bit-reversed evaluations back to
    /// natural-order coefficients, scaled by `1/n`; coefficient `k` of a
    /// row is `(1/row) · E(winv^k)` where `E` is the row's natural-order
    /// evaluation sequence and `winv` the inverse root.
    pub fn batch_interpolate_ntt(&self, io: &mut Buf<Fp>, count: usize)
        requires
            count > 0,
            old(io)@.len() == count * (old(io)@.len() as int / count as int),
            is_pow2(old(io)@.len() as int / count as int),
            old(io)@.len() as int / count as int <= 0x4000000,
            forall|i: int| 0 <= i < old(io)@.len() ==> (#[trigger] old(io)@[i]).is_valid(),
        ensures
            final(io)@.len() == old(io)@.len(),
            forall|idx: int|
                0 <= idx < old(io)@.len() ==> {
                    let row = old(io)@.len() as int / count as int;
                    let j = idx / row;
                    let k = idx % row;
                    let evals = Seq::new(
                        row as nat,
                        |i: int| old(io)@[j * row + brev(log2(row), i)],
                    );
                    (#[trigger] final(io)@[idx]) == fmul(
                        fp_invf(fpv(row)),
                        poly_eval_fp(evals, fp_powf(fp_invf(rou_fwd_spec(log2(row))), k as nat)),
                    )
                },
    {
        let n: usize = io.size();
        let row: usize = n / count;
        let bits: usize = log2_exact(row);
        let w = rou_fwd(bits);
        let winv = w.inv();
        proof {
            lemma_log2_pow2(bits as nat);
            vstd::arithmetic::power2::lemma_pow2_pos(bits as nat);
            assert(pow2(bits as nat) <= pow2(27)) by {
                if (bits as nat) < 27 {
                    vstd::arithmetic::power2::lemma_pow2_strictly_increases(bits as nat, 27);
                }
            };
            assert(pow2(27) == 0x8000000) by {
                vstd::arithmetic::power2::lemma_pow2_adds(26, 1);
                lemma2_to64();
            };
            crate::fp::lemma_fpv_valid(row as int);
        }
        let rowf = Fp::new(((row as u64) % (P as u64)) as u32);
        let ninv = rowf.inv();
        let tmp = io.host_view();
        let mut idx: usize = 0;
        while idx < n
            invariant
                idx <= n,
                count > 0,
                row > 0,
                n == io@.len(),
                io@.len() == old(io)@.len(),
                tmp@ == old(io)@,
                row == n as int / count as int,
                n == count * row,
                row == pow2(bits as nat),
                row <= 0x8000000,
                bits as nat == log2(row as int),
                bits <= 27,
                w == rou_fwd_spec(bits as nat),
                winv == fp_invf(rou_fwd_spec(bits as nat)),
                winv.is_valid(),
                ninv == fp_invf(fpv(row as int)),
                ninv.is_valid(),
                forall|i: int| 0 <= i < old(io)@.len() ==> (#[trigger] old(io)@[i]).is_valid(),
                forall|t: int|
                    0 <= t < idx ==> {
                        let j = t / (row as int);
                        let k = t % (row as int);
                        let evals = Seq::new(
                            row as nat,
                            |i: int| old(io)@[j * row + brev(log2(row as int), i)],
                        );
                        (#[trigger] io@[t]) == fmul(
                            fp_invf(fpv(row as int)),
                            poly_eval_fp(
                                evals,
                                fp_powf(fp_invf(rou_fwd_spec(log2(row as int))), k as nat),
                            ),
                        )
                    },
                forall|t: int| idx <= t < n ==> io@[t] == old(io)@[t],
            decreases n - idx,
        {
            proof {
                vstd::arithmetic::div_mod::lemma_mod_bound(idx as int, row as int);
                vstd::arithmetic::div_mod::lemma_div_pos_is_pos(idx as int, row as int);
                assert(n as int == (row as int) * (count as int)) by (nonlinear_arith)
                    requires
                        n as int == (count as int) * (row as int),
                ;
                vstd::arithmetic::div_mod::lemma_multiply_divide_lt(
                    idx as int,
                    row as int,
                    count as int,
                );
            }
            let j: usize = idx / row;
            let k: usize = idx % row;
            proof {
                vstd::arithmetic::mul::lemma_mul_inequality(
                    j as int + 1,
                    count as int,
                    row as int,
                );
                assert((j + 1) as int * (row as int) == j as int * (row as int) + row)
                    by (nonlinear_arith);
            }
            // gather the row's natural-order evaluations
            let ghost evals_spec = Seq::new(
                row as nat,
                |i: int| old(io)@[j as int * row + brev(log2(row as int), i)],
            );
            let mut evals: Vec<Fp> = Vec::new();
            let mut i: usize = 0;
            while i < row
                invariant
                    i <= row,
                    j < count,
                    row > 0,
                    bits <= 27,
                    row == pow2(bits as nat),
                    bits as nat == log2(row as int),
                    n == count * row,
                    (j + 1) as int * (row as int) == j as int * (row as int) + row,
                    j as int * (row as int) + row <= n,
                    tmp@ == old(io)@,
                    tmp@.len() == n,
                    evals_spec == Seq::new(
                        row as nat,
                        |t: int| old(io)@[j as int * row + brev(log2(row as int), t)],
                    ),
                    evals@.len() == i,
                    forall|t: int| 0 <= t < i ==> evals@[t] == evals_spec[t],
                    forall|t: int| 0 <= t < i ==> (#[trigger] evals@[t]).is_valid(),
                    forall|t: int|
                        0 <= t < old(io)@.len() ==> (#[trigger] old(io)@[t]).is_valid(),
                decreases row - i,
            {
                let r = bit_rev(bits, i);
                let v = tmp[j * row + r];
                evals.push(v);
                i += 1;
            }
            proof {
                assert(evals@ =~= evals_spec);
            }
            let xk = winv.pow(k as u32);
            let e = eval_fp_row(&evals, 0, row, xk);
            let v = ninv.mul(e);
            proof {
                assert(evals@.subrange(0, row as int) =~= evals@);
            }
            io.set_at(idx, v);
            proof {
                let t = idx as int;
                let jj = t / (row as int);
                let kk = t % (row as int);
                let evals2 = Seq::new(
                    row as nat,
                    |i: int| old(io)@[jj * (row as int) + brev(log2(row as int), i)],
                );
                assert(evals_spec =~= evals2);
                assert(io@[t] == fmul(
                    fp_invf(fpv(row as int)),
                    poly_eval_fp(evals2, fp_powf(fp_invf(rou_fwd_spec(log2(row as int))), kk as nat)),
                ));
            }
            idx += 1;
        }
    }
}

} // verus!
