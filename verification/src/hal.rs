//! Hardware-abstraction layer: the linear-algebra and hashing primitives
//! the surrounding prover drives, on host buffers.
//!
//! Every operation is synchronous and states its element-level semantics;
//! launch-parameter computation is kept because callers size accelerator
//! dispatches with it.

use vstd::prelude::*;
use vstd::arithmetic::power2::pow2;
use vstd::arithmetic::power::pow;
use crate::buffer::Buf;
use crate::ext::{ext_add, ext_from, ext_mul, ext_scale, fadd, fmul, FpExt};
use crate::fp::{fpv, Fp};
use crate::hash::{hash_pair, hash_words, pair_words, sha_words_of, Digest, HashSuiteKind};

verus! {

/// Fan-in of one FRI folding round.
pub const FRI_FOLD: usize = 16;

/// The multiplicative shift generator used by `zk_shift`; it is not a root
/// of unity of any power-of-two order.
pub const SHIFT_GEN: u32 = 31;

/// A three-dimensional launch extent.
#[derive(Clone, Copy, Debug, PartialEq, Eq, Structural)]
pub struct Dim3 {
    pub x: u32,
    pub y: u32,
    pub z: u32,
}

/// Ceiling division, with the overflow of `a + b` excluded up front.
pub fn div_ceil(a: u32, b: u32) -> (r: u32)
    requires
        b > 0,
        a + b <= u32::MAX,
    ensures
        r == ((a + b - 1) as int) / (b as int),
        r * b >= a,
        r == 0 <==> a == 0,
{
    let r = (a + b - 1) / b;
    proof {
        let x = (a + b - 1) as int;
        let d = b as int;
        let q = x / d;
        vstd::arithmetic::div_mod::lemma_fundamental_div_mod(x, d);
        vstd::arithmetic::div_mod::lemma_mod_bound(x, d);
        assert(q * d == d * q) by (nonlinear_arith);
        if a > 0 {
            vstd::arithmetic::div_mod::lemma_div_non_zero(x, d);
        } else {
            vstd::arithmetic::div_mod::lemma_basic_div(x, d);
        }
    }
    r
}

/// Running product prefix: element `i` of the result of `prefix_products`.
pub open spec fn prefix_prod(s: Seq<FpExt>, i: int) -> FpExt
    decreases i,
{
    if i <= 0 {
        s[0]
    } else {
        ext_mul(s[i], prefix_prod(s, i - 1))
    }
}

/// Sum of the first `n` elements of an extension sequence.
pub open spec fn ext_sum(s: Seq<FpExt>, n: int) -> FpExt
    decreases n,
{
    if n <= 0 {
        ext_from(Fp { repr: 0u32 })
    } else {
        ext_add(ext_sum(s, n - 1), s[n - 1])
    }
}

/// Horner evaluation of a polynomial with base-field coefficients at an
/// extension point: `s[0] + x·(s[1] + x·(...))`.
pub open spec fn poly_eval_ext(s: Seq<Fp>, x: FpExt) -> FpExt
    decreases s.len(),
{
    if s.len() == 0 {
        ext_from(Fp { repr: 0u32 })
    } else {
        ext_add(ext_mul(poly_eval_ext(s.drop_first(), x), x), ext_from(s[0]))
    }
}

/// The extension element stored at extension index `e` of a base-field
/// buffer, as four consecutive coefficients.
pub open spec fn ext_at(s: Seq<Fp>, e: int) -> FpExt {
    FpExt { c0: s[4 * e], c1: s[4 * e + 1], c2: s[4 * e + 2], c3: s[4 * e + 3] }
}

/// The FRI fold of group `g`: `v_0 + mix·(v_1 + mix·(...))` over the
/// group's `FRI_FOLD` strided evaluations, folded from `from` upward.
pub open spec fn fri_fold_spec(s: Seq<Fp>, g: int, count: int, mix: FpExt, from: int) -> FpExt
    decreases FRI_FOLD - from,
{
    if from >= FRI_FOLD {
        ext_from(Fp { repr: 0u32 })
    } else {
        ext_add(
            ext_mul(fri_fold_spec(s, g, count, mix, from + 1), mix),
            ext_at(s, from * count + g),
        )
    }
}

/// The mixed contribution of the first `upto` input polynomials to output
/// bucket `b` at coefficient `k`.
pub open spec fn mix_sum(
    inp: Seq<Fp>,
    combos: Seq<u32>,
    count: int,
    ms: FpExt,
    mx: FpExt,
    b: int,
    k: int,
    upto: int,
) -> FpExt
    decreases upto,
{
    if upto <= 0 {
        ext_from(Fp { repr: 0u32 })
    } else {
        let prev = mix_sum(inp, combos, count, ms, mx, b, k, upto - 1);
        if combos[upto - 1] == b {
            ext_add(prev, ext_scale(mix_pow(ms, mx, upto - 1), inp[(upto - 1) * count + k]))
        } else {
            prev
        }
    }
}

/// `ms · mx^i`, the mixing coefficient of input `i`.
pub open spec fn mix_pow(ms: FpExt, mx: FpExt, i: int) -> FpExt
    decreases i,
{
    if i <= 0 {
        ms
    } else {
        ext_mul(mix_pow(ms, mx, i - 1), mx)
    }
}

/// The words of the matrix column that `hash_rows` hashes for row `r`.
pub open spec fn col_words(m: Seq<Fp>, r: int, row_size: int, col_size: int) -> Seq<u32> {
    Seq::new(col_size as nat, |i: int| m[i * row_size + r].repr)
}

/// The digest words of Merkle-tree node `j` over a heap-ordered buffer with
/// `n` leaves at `[n, 2n)`.
pub open spec fn node_val(d0: Seq<Digest>, n: int, j: int) -> Seq<u32>
    decreases 2 * n - j,
{
    if j >= n || j < 1 || n < 1 {
        d0[j]@
    } else {
        sha_words_of(pair_words(node_val(d0, n, 2 * j), node_val(d0, n, 2 * j + 1)))
    }
}

/// The host backend of the hardware-abstraction layer.
pub struct CpuHal {
    pub suite: HashSuiteKind,
    pub max_threads: u32,
}

impl CpuHal {
    /// A HAL with the chosen hash family; the thread budget mirrors the
    /// accelerator limit callers size their dispatches with.
    pub fn new(suite: HashSuiteKind) -> (r: CpuHal)
        ensures
            r.suite == suite,
            r.max_threads == 1024u32,
    {
        CpuHal { suite, max_threads: 1024 }
    }

    /// The configured hash family.
    pub fn get_hash_suite(&self) -> (r: HashSuiteKind)
        ensures
            r == self.suite,
    {
        self.suite
    }

    /// Host memory is unified with itself.
    pub fn has_unified_memory(&self) -> (r: bool)
        ensures
            r,
    {
        true
    }

    /// One-dimensional launch extents: a quarter of the thread budget per
    /// block, and enough blocks to cover `count`.
    pub fn compute_simple_params(&self, count: u32) -> (r: (Dim3, Dim3))
        requires
            self.max_threads == 1024,
            count <= 0xffff_0000,
        ensures
            r.1.x == self.max_threads / 4,
            r.0.x * r.1.x >= count,
            r.0.x == 0 <==> count == 0,
    {
        let block = self.max_threads / 4;
        let grid = div_ceil(count, block);
        (Dim3 { x: grid, y: 1, z: 1 }, Dim3 { x: block, y: 1, z: 1 })
    }

    /// Launch extents for the three-dimensional NTT kernels: threads cover
    /// the butterfly span `s` and batch `g`, grids add the column dimension,
    /// within a budget of 128 threads per block and 32 grid cells.
    pub fn compute_launch_params(&self, n_bits: u32, s_bits: u32, c_size: u32) -> (r: (Dim3, Dim3))
        requires
            1 <= s_bits,
            s_bits <= n_bits,
            n_bits <= 27,
            c_size >= 1,
        ensures
            1 <= r.1.x && 1 <= r.1.y && r.1.x * r.1.y <= 128,
            1 <= r.0.x && 1 <= r.0.y && 1 <= r.0.z,
            r.0.x * r.0.y * r.0.z <= 32,
    {
        let sh1: u32 = s_bits - 1;
        let sh2: u32 = n_bits - s_bits;
        let s_size: u32 = 1u32 << sh1;
        let g_size: u32 = 1u32 << sh2;
        proof {
            assert(1u32 << sh1 >= 1 && 1u32 << sh2 >= 1) by (bit_vector)
                requires
                    sh1 < 32 && sh2 < 32,
            ;
        }
        // threads over the butterfly span, then the batch
        let bx: u32 = if 128 < s_size {
            128
        } else {
            s_size
        };
        let threads: u32 = 128 / bx;
        proof {
            vstd::arithmetic::div_mod::lemma_div_non_zero(128, bx as int);
        }
        let by: u32 = if threads < g_size {
            threads
        } else {
            g_size
        };
        // grids over the span, the batch, then the columns
        let q1: u32 = s_size / bx;
        proof {
            vstd::arithmetic::div_mod::lemma_div_non_zero(s_size as int, bx as int);
        }
        let gx: u32 = if 32 < q1 {
            32
        } else {
            q1
        };
        let grids1: u32 = 32 / gx;
        proof {
            vstd::arithmetic::div_mod::lemma_div_non_zero(32, gx as int);
        }
        let q2: u32 = g_size / by;
        proof {
            vstd::arithmetic::div_mod::lemma_div_non_zero(g_size as int, by as int);
        }
        let gy: u32 = if grids1 < q2 {
            grids1
        } else {
            q2
        };
        let grids2: u32 = grids1 / gy;
        proof {
            vstd::arithmetic::div_mod::lemma_div_non_zero(grids1 as int, gy as int);
        }
        let gz: u32 = if grids2 < c_size {
            grids2
        } else {
            c_size
        };
        proof {
            lemma_budget_split(128, bx as int, by as int);
            lemma_budget_split3(32, gx as int, gy as int, gz as int);
        }
        (Dim3 { x: gx, y: gy, z: gz }, Dim3 { x: bx, y: by, z: 1 })

    }

    /// Allocate a zero-filled element buffer.
    pub fn alloc_elem(&self, name: &'static str, size: usize) -> (r: Buf<Fp>)
        ensures
            r@.len() == size,
            forall|i: int| 0 <= i < size ==> r@[i] == (Fp { repr: 0u32 }),
    {
        Buf::new_filled(name, size, Fp::zero())
    }

    /// Copy a slice of elements into a fresh buffer.
    pub fn copy_from_elem(&self, name: &'static str, slice: &[Fp]) -> (r: Buf<Fp>)
        ensures
            r@ == slice@,
    {
        Buf::copy_from(name, slice)
    }

    /// Allocate a zero-filled extension-element buffer.
    pub fn alloc_extelem(&self, name: &'static str, size: usize) -> (r: Buf<FpExt>)
        ensures
            r@.len() == size,
            forall|i: int| 0 <= i < size ==> r@[i] == ext_from(Fp { repr: 0u32 }),
    {
        Buf::new_filled(name, size, FpExt::zero())
    }

    /// Copy a slice of extension elements into a fresh buffer.
    pub fn copy_from_extelem(&self, name: &'static str, slice: &[FpExt]) -> (r: Buf<FpExt>)
        ensures
            r@ == slice@,
    {
        Buf::copy_from(name, slice)
    }

    /// Allocate a digest buffer filled with the zero digest.
    pub fn alloc_digest(&self, name: &'static str, size: usize) -> (r: Buf<Digest>)
        ensures
            r@.len() == size,
    {
        Buf::new_filled(name, size, Digest { words: [0u32; 8] })
    }

    /// Copy a slice of digests into a fresh buffer.
    pub fn copy_from_digest(&self, name: &'static str, slice: &[Digest]) -> (r: Buf<Digest>)
        ensures
            r@ == slice@,
    {
        Buf::copy_from(name, slice)
    }

    /// Allocate a zero-filled word buffer.
    pub fn alloc_u32(&self, name: &'static str, size: usize) -> (r: Buf<u32>)
        ensures
            r@.len() == size,
            forall|i: int| 0 <= i < size ==> r@[i] == 0u32,
    {
        Buf::new_filled(name, size, 0u32)
    }

    /// Copy a slice of words into a fresh buffer.
    pub fn copy_from_u32(&self, name: &'static str, slice: &[u32]) -> (r: Buf<u32>)
        ensures
            r@ == slice@,
    {
        Buf::copy_from(name, slice)
    }

    /// Element-wise field addition of two buffers of equal size.
    pub fn eltwise_add_elem(&self, output: &mut Buf<Fp>, input1: &Buf<Fp>, input2: &Buf<Fp>)
        requires
            old(output)@.len() == input1@.len(),
            old(output)@.len() == input2@.len(),
            forall|i: int| 0 <= i < input1@.len() ==> (#[trigger] input1@[i]).is_valid(),
            forall|i: int| 0 <= i < input2@.len() ==> (#[trigger] input2@[i]).is_valid(),
        ensures
            final(output)@.len() == old(output)@.len(),
            forall|i: int|
                0 <= i < old(output)@.len() ==> final(output)@[i] == fadd(input1@[i], input2@[i]),
    {
        let n = output.size();
        let mut i: usize = 0;
        while i < n
            invariant
                i <= n,
                n == output@.len(),
                n == input1@.len(),
                n == input2@.len(),
                forall|k: int| 0 <= k < input1@.len() ==> (#[trigger] input1@[k]).is_valid(),
                forall|k: int| 0 <= k < input2@.len() ==> (#[trigger] input2@[k]).is_valid(),
                forall|k: int| 0 <= k < i ==> output@[k] == fadd(input1@[k], input2@[k]),
            decreases n - i,
        {
            let v = input1.get_at(i).add(input2.get_at(i));
            output.set_at(i, v);
            i += 1;
        }
    }

    /// Element-wise copy between buffers of equal size.
    pub fn eltwise_copy_elem(&self, output: &mut Buf<Fp>, input: &Buf<Fp>)
        requires
            old(output)@.len() == input@.len(),
        ensures
            final(output)@ == input@,
    {
        let n = output.size();
        let mut i: usize = 0;
        while i < n
            invariant
                i <= n,
                n == output@.len(),
                n == input@.len(),
                forall|k: int| 0 <= k < i ==> output@[k] == input@[k],
            decreases n - i,
        {
            let v = input.get_at(i);
            output.set_at(i, v);
            i += 1;
        }
        proof {
            assert(output@ =~= input@);
        }
    }

    /// Strided gather: `dst[i] = src[idx + i·stride]`.
    pub fn gather_sample(
        &self,
        dst: &mut Buf<Fp>,
        src: &Buf<Fp>,
        idx: usize,
        size: usize,
        stride: usize,
    )
        requires
            size <= old(dst)@.len(),
            size > 0 ==> idx + (size - 1) * stride < src@.len(),
        ensures
            final(dst)@.len() == old(dst)@.len(),
            forall|i: int| 0 <= i < size ==> final(dst)@[i] == src@[idx + i * stride],
            forall|i: int| size <= i < old(dst)@.len() ==> final(dst)@[i] == old(dst)@[i],
    {
        let m: usize = src.size();
        let mut i: usize = 0;
        while i < size
            invariant
                i <= size,
                size <= dst@.len(),
                dst@.len() == old(dst)@.len(),
                m == src@.len(),
                size > 0 ==> idx + (size - 1) * stride < src@.len(),
                forall|k: int| 0 <= k < i ==> dst@[k] == src@[idx + k * stride],
                forall|k: int| i <= k < dst@.len() ==> dst@[k] == old(dst)@[k],
            decreases size - i,
        {
            proof {
                vstd::arithmetic::mul::lemma_mul_inequality(i as int, size - 1, stride as int);
            }
            let v = src.get_at(idx + i * stride);
            dst.set_at(i, v);
            i += 1;
        }
    }

    /// In-place running product over an extension buffer.
    pub fn prefix_products(&self, io: &mut Buf<FpExt>)
        requires
            forall|i: int| 0 <= i < old(io)@.len() ==> (#[trigger] old(io)@[i]).is_valid(),
        ensures
            final(io)@.len() == old(io)@.len(),
            forall|i: int| 0 <= i < old(io)@.len() ==> final(io)@[i] == prefix_prod(old(io)@, i),
    {
        let n = io.size();
        if n == 0 {
            return ;
        }
        let mut run: FpExt = io.get_at(0);
        let mut i: usize = 1;
        while i < n
            invariant
                1 <= i <= n,
                n == io@.len(),
                io@.len() == old(io)@.len(),
                run == prefix_prod(old(io)@, i - 1),
                run.is_valid(),
                forall|k: int|
                    0 <= k < old(io)@.len() ==> (#[trigger] old(io)@[k]).is_valid(),
                forall|k: int| 0 <= k < i ==> io@[k] == prefix_prod(old(io)@, k),
                forall|k: int| i <= k < n ==> io@[k] == old(io)@[k],
            decreases n - i,
        {
            run = io.get_at(i).mul(run);
            io.set_at(i, run);
            i += 1;
        }
    }

    /// Multiply the `k`-th coefficient of each row by `SHIFT_GEN^k`: the
    /// substitution `f(x) -> f(g·x)` on coefficient form.
    pub fn zk_shift(&self, io: &mut Buf<Fp>, poly_count: usize)
        requires
            poly_count > 0,
            old(io)@.len() == poly_count * (old(io)@.len() as int / poly_count as int),
            old(io)@.len() <= 0xffff_ffff,
            forall|i: int| 0 <= i < old(io)@.len() ==> (#[trigger] old(io)@[i]).is_valid(),
        ensures
            final(io)@.len() == old(io)@.len(),
            forall|i: int|
                0 <= i < old(io)@.len() ==> final(io)@[i] == fmul(
                    old(io)@[i],
                    fpv(pow(SHIFT_GEN as int, (i % (old(io)@.len() as int / poly_count as int)) as nat)),
                ),
    {
        let n = io.size();
        let row: usize = n / poly_count;
        let g = Fp::new(SHIFT_GEN);
        let mut i: usize = 0;
        while i < n
            invariant
                i <= n,
                n == io@.len(),
                io@.len() == old(io)@.len(),
                row == old(io)@.len() as int / poly_count as int,
                n == poly_count * row,
                n <= 0xffff_ffff,
                g == (Fp { repr: SHIFT_GEN }),
                forall|k: int| 0 <= k < old(io)@.len() ==> (#[trigger] old(io)@[k]).is_valid(),
                forall|k: int|
                    0 <= k < i ==> io@[k] == fmul(
                        old(io)@[k],
                        fpv(pow(SHIFT_GEN as int, (k % (row as int)) as nat)),
                    ),
                forall|k: int| i <= k < n ==> io@[k] == old(io)@[k],
            decreases n - i,
        {
            proof {
                if row > 0 {
                    vstd::arithmetic::div_mod::lemma_mod_bound(i as int, row as int);
                }
            }
            let k: usize = i % row;
            let gk = g.pow(k as u32);
            let v = io.get_at(i).mul(gk);
            io.set_at(i, v);
            i += 1;
        }
    }
}

/// Sum `to_add` consecutive extension elements starting at `start`.
fn sum_group(input: &Buf<FpExt>, start: usize, to_add: usize) -> (r: FpExt)
    requires
        start + to_add <= input@.len(),
        forall|i: int| 0 <= i < input@.len() ==> (#[trigger] input@[i]).is_valid(),
    ensures
        r == ext_sum(input@.subrange(start as int, start as int + to_add as int), to_add as int),
        r.is_valid(),
{
    let m: usize = input.size();
    let ghost grp = input@.subrange(start as int, start as int + to_add as int);
    let mut acc = FpExt::zero();
    let mut j: usize = 0;
    while j < to_add
        invariant
            j <= to_add,
            m == input@.len(),
            start + to_add <= m,
            grp == input@.subrange(start as int, start as int + to_add as int),
            acc == ext_sum(grp, j as int),
            acc.is_valid(),
            forall|i: int| 0 <= i < input@.len() ==> (#[trigger] input@[i]).is_valid(),
        decreases to_add - j,
    {
        let v = input.get_at(start + j);
        proof {
            assert(grp[j as int] == input@[start + j]);
        }
        acc = acc.add(v);
        j += 1;
    }
    acc
}

/// Fold one FRI group: Horner combination of its strided evaluations.
fn fold_group(input: &Buf<Fp>, g: usize, count: usize, mix: &FpExt) -> (r: FpExt)
    requires
        g < count,
        count > 0,
        input@.len() == 4 * count * FRI_FOLD,
        mix.is_valid(),
        forall|i: int| 0 <= i < input@.len() ==> (#[trigger] input@[i]).is_valid(),
    ensures
        r == fri_fold_spec(input@, g as int, count as int, *mix, 0),
        r.is_valid(),
{
    let m: usize = input.size();
    let mut acc = FpExt::zero();
    let mut j: usize = FRI_FOLD;
    while j > 0
        invariant
            j <= FRI_FOLD,
            g < count,
            count > 0,
            m == input@.len(),
            m == 4 * count * FRI_FOLD,
            mix.is_valid(),
            acc == fri_fold_spec(input@, g as int, count as int, *mix, j as int),
            acc.is_valid(),
            forall|i: int| 0 <= i < input@.len() ==> (#[trigger] input@[i]).is_valid(),
        decreases j,
    {
        proof {
            vstd::arithmetic::mul::lemma_mul_inequality(
                j as int - 1,
                FRI_FOLD as int - 1,
                count as int,
            );
            assert(4 * ((j - 1) as int * (count as int) + g) + 3 < m) by (nonlinear_arith)
                requires
                    g < count,
                    0 < j <= FRI_FOLD,
                    count > 0,
                    (j - 1) as int * (count as int) <= (FRI_FOLD - 1) as int * (count as int),
                    m == 4 * (count as int) * FRI_FOLD,
            ;
        }
        let e: usize = (j - 1) * count + g;
        let c0 = input.get_at(4 * e);
        let c1 = input.get_at(4 * e + 1);
        let c2 = input.get_at(4 * e + 2);
        let c3 = input.get_at(4 * e + 3);
        let v = FpExt::new(c0, c1, c2, c3);
        acc = acc.mul(*mix).add(v);
        j -= 1;
    }
    acc
}

impl CpuHal {
    /// Reduce each group of `to_add` consecutive extension elements into
    /// one, written as four base-field planes of length `count`.
    pub fn eltwise_sum_extelem(&self, output: &mut Buf<Fp>, input: &Buf<FpExt>)
        requires
            old(output)@.len() % 4 == 0,
            old(output)@.len() > 0,
            input@.len() as int % (old(output)@.len() as int / 4) == 0,
            forall|i: int| 0 <= i < input@.len() ==> (#[trigger] input@[i]).is_valid(),
        ensures
            final(output)@.len() == old(output)@.len(),
            forall|g: int|
                0 <= g < old(output)@.len() as int / 4 ==> {
                    let count = old(output)@.len() as int / 4;
                    let to_add = input@.len() as int / count;
                    let sum = ext_sum(input@.subrange(g * to_add, g * to_add + to_add), to_add);
                    &&& (#[trigger] final(output)@[g]) == sum.c0
                    &&& final(output)@[count + g] == sum.c1
                    &&& final(output)@[2 * count + g] == sum.c2
                    &&& final(output)@[3 * count + g] == sum.c3
                },
    {
        let n: usize = output.size();
        let count: usize = n / 4;
        let m: usize = input.size();
        let to_add: usize = m / count;
        proof {
            vstd::arithmetic::div_mod::lemma_fundamental_div_mod(n as int, 4);
            vstd::arithmetic::div_mod::lemma_fundamental_div_mod(m as int, count as int);
        }
        let mut g: usize = 0;
        while g < count
            invariant
                g <= count,
                n == output@.len(),
                output@.len() == old(output)@.len(),
                m == input@.len(),
                count == n as int / 4,
                n == 4 * count,
                to_add == m as int / count as int,
                m == count * to_add,
                count > 0,
                forall|i: int| 0 <= i < input@.len() ==> (#[trigger] input@[i]).is_valid(),
                forall|h: int|
                    0 <= h < g ==> {
                        let sum = ext_sum(
                            input@.subrange(h * to_add, h * to_add + to_add),
                            to_add as int,
                        );
                        &&& (#[trigger] output@[h]) == sum.c0
                        &&& output@[count + h] == sum.c1
                        &&& output@[2 * count + h] == sum.c2
                        &&& output@[3 * count + h] == sum.c3
                    },
            decreases count - g,
        {
            proof {
                vstd::arithmetic::mul::lemma_mul_inequality(
                    g as int + 1,
                    count as int,
                    to_add as int,
                );
                assert((g + 1) as int * (to_add as int) == g as int * (to_add as int) + to_add)
                    by (nonlinear_arith);
            }
            let acc = sum_group(input, g * to_add, to_add);
            let ghost before = output@;
            output.set_at(g, acc.c0);
            output.set_at(count + g, acc.c1);
            output.set_at(2 * count + g, acc.c2);
            output.set_at(3 * count + g, acc.c3);
            proof {
                assert forall|h: int|
                    0 <= h < g + 1 implies {
                    let sum = ext_sum(
                        input@.subrange(h * to_add, h * to_add + to_add),
                        to_add as int,
                    );
                    &&& (#[trigger] output@[h]) == sum.c0
                    &&& output@[count + h] == sum.c1
                    &&& output@[2 * count + h] == sum.c2
                    &&& output@[3 * count + h] == sum.c3
                } by {
                    if h == g {
                        assert(output@[h] == acc.c0);
                        assert(output@[count + h] == acc.c1);
                        assert(output@[2 * count + h] == acc.c2);
                        assert(output@[3 * count + h] == acc.c3);
                    } else {
                        assert(output@[h] == before[h]);
                        assert(output@[count + h] == before[count + h]);
                        assert(output@[2 * count + h] == before[2 * count + h]);
                        assert(output@[3 * count + h] == before[3 * count + h]);
                        assert(before[h] == ext_sum(
                            input@.subrange(h * to_add, h * to_add + to_add),
                            to_add as int,
                        ).c0);
                    }
                };
            }
            g += 1;
        }
    }

    /// FRI fold: combine each group's `FRI_FOLD` strided evaluations with
    /// powers of `mix`, writing the result as four planes.
    pub fn fri_fold(&self, output: &mut Buf<Fp>, input: &Buf<Fp>, mix: &FpExt)
        requires
            old(output)@.len() % 4 == 0,
            old(output)@.len() > 0,
            input@.len() == old(output)@.len() * FRI_FOLD,
            mix.is_valid(),
            forall|i: int| 0 <= i < input@.len() ==> (#[trigger] input@[i]).is_valid(),
        ensures
            final(output)@.len() == old(output)@.len(),
            forall|g: int|
                0 <= g < old(output)@.len() as int / 4 ==> {
                    let count = old(output)@.len() as int / 4;
                    let fold = fri_fold_spec(input@, g, count, *mix, 0);
                    &&& (#[trigger] final(output)@[g]) == fold.c0
                    &&& final(output)@[count + g] == fold.c1
                    &&& final(output)@[2 * count + g] == fold.c2
                    &&& final(output)@[3 * count + g] == fold.c3
                },
    {
        let n: usize = output.size();
        let count: usize = n / 4;
        let m: usize = input.size();
        proof {
            vstd::arithmetic::div_mod::lemma_fundamental_div_mod(n as int, 4);
            assert(m == 4 * (count as int) * FRI_FOLD) by (nonlinear_arith)
                requires
                    m == n * FRI_FOLD,
                    n == 4 * count,
            ;
        }
        let mut g: usize = 0;
        while g < count
            invariant
                g <= count,
                n == output@.len(),
                output@.len() == old(output)@.len(),
                m == input@.len(),
                count == n as int / 4,
                n == 4 * count,
                m == 4 * (count as int) * FRI_FOLD,
                count > 0,
                mix.is_valid(),
                forall|i: int| 0 <= i < input@.len() ==> (#[trigger] input@[i]).is_valid(),
                forall|h: int|
                    0 <= h < g ==> {
                        let fold = fri_fold_spec(input@, h, count as int, *mix, 0);
                        &&& (#[trigger] output@[h]) == fold.c0
                        &&& output@[count + h] == fold.c1
                        &&& output@[2 * count + h] == fold.c2
                        &&& output@[3 * count + h] == fold.c3
                    },
            decreases count - g,
        {
            let acc = fold_group(input, g, count, mix);
            let ghost before = output@;
            output.set_at(g, acc.c0);
            output.set_at(count + g, acc.c1);
            output.set_at(2 * count + g, acc.c2);
            output.set_at(3 * count + g, acc.c3);
            proof {
                assert forall|h: int|
                    0 <= h < g + 1 implies {
                    let fold = fri_fold_spec(input@, h, count as int, *mix, 0);
                    &&& (#[trigger] output@[h]) == fold.c0
                    &&& output@[count + h] == fold.c1
                    &&& output@[2 * count + h] == fold.c2
                    &&& output@[3 * count + h] == fold.c3
                } by {
                    if h == g {
                        assert(output@[h] == acc.c0);
                        assert(output@[count + h] == acc.c1);
                        assert(output@[2 * count + h] == acc.c2);
                        assert(output@[3 * count + h] == acc.c3);
                    } else {
                        assert(output@[h] == before[h]);
                        assert(output@[count + h] == before[count + h]);
                        assert(output@[2 * count + h] == before[2 * count + h]);
                        assert(output@[3 * count + h] == before[3 * count + h]);
                        assert(before[h] == fri_fold_spec(input@, h, count as int, *mix, 0).c0);
                    }
                };
            }
            g += 1;
        }
    }
}

/// The mixed contribution of every input polynomial to one output cell.
fn mix_cell_sum(
    input: &Buf<Fp>,
    combos: &Buf<u32>,
    count: usize,
    b: u32,
    k: usize,
    ms: &FpExt,
    mx: &FpExt,
    input_size: usize,
) -> (r: FpExt)
    requires
        count > 0,
        k < count,
        input_size * count <= input@.len(),
        combos@.len() == input_size,
        ms.is_valid(),
        mx.is_valid(),
        forall|i: int| 0 <= i < input@.len() ==> (#[trigger] input@[i]).is_valid(),
    ensures
        r == mix_sum(
            input@,
            combos@,
            count as int,
            *ms,
            *mx,
            b as int,
            k as int,
            input_size as int,
        ),
        r.is_valid(),
{
    let mlen: usize = input.size();
    let mut acc = FpExt::zero();
    let mut cur: FpExt = *ms;
    let mut i: usize = 0;
    while i < input_size
        invariant
            i <= input_size,
            count > 0,
            k < count,
            mlen == input@.len(),
            input_size * count <= mlen,
            combos@.len() == input_size,
            ms.is_valid(),
            mx.is_valid(),
            cur == mix_pow(*ms, *mx, i as int),
            cur.is_valid(),
            acc == mix_sum(
                input@,
                combos@,
                count as int,
                *ms,
                *mx,
                b as int,
                k as int,
                i as int,
            ),
            acc.is_valid(),
            forall|t: int| 0 <= t < input@.len() ==> (#[trigger] input@[t]).is_valid(),
        decreases input_size - i,
    {
        proof {
            vstd::arithmetic::mul::lemma_mul_inequality(
                i as int + 1,
                input_size as int,
                count as int,
            );
            assert((i + 1) as int * (count as int) == i as int * (count as int) + count)
                by (nonlinear_arith);
        }
        let c = combos.get_at(i);
        if c == b {
            let v = input.get_at(i * count + k);
            acc = acc.add(cur.scale(v));
        }
        cur = cur.mul(*mx);
        i += 1;
    }
    acc
}

/// Horner evaluation of the coefficient row starting at `base`.
fn eval_poly(coeffs: &Buf<Fp>, base: usize, count: usize, x: &FpExt) -> (r: FpExt)
    requires
        base + count <= coeffs@.len(),
        x.is_valid(),
        forall|i: int| 0 <= i < coeffs@.len() ==> (#[trigger] coeffs@[i]).is_valid(),
    ensures
        r == poly_eval_ext(coeffs@.subrange(base as int, base as int + count as int), *x),
        r.is_valid(),
{
    let m: usize = coeffs.size();
    let ghost row = coeffs@.subrange(base as int, base as int + count as int);
    let mut acc = FpExt::zero();
    let mut j: usize = count;
    while j > 0
        invariant
            j <= count,
            m == coeffs@.len(),
            base + count <= m,
            x.is_valid(),
            row == coeffs@.subrange(base as int, base as int + count as int),
            acc == poly_eval_ext(row.skip(j as int), *x),
            acc.is_valid(),
            forall|i: int| 0 <= i < coeffs@.len() ==> (#[trigger] coeffs@[i]).is_valid(),
        decreases j,
    {
        let c = coeffs.get_at(base + j - 1);
        proof {
            assert(row[j - 1] == coeffs@[base + j - 1]);
            assert(row.skip(j - 1).drop_first() =~= row.skip(j as int));
            assert(row.skip(j - 1)[0] == row[j - 1]);
        }
        acc = acc.mul(*x).add(FpExt::from_fp(c));
        j -= 1;
    }
    proof {
        assert(row.skip(0) =~= row);
    }
    acc
}

/// The words of one strided matrix column.
fn column_words(matrix: &Buf<Fp>, r: usize, row_size: usize, col_size: usize) -> (ws: Vec<u32>)
    requires
        r < row_size,
        col_size * row_size <= matrix@.len(),
    ensures
        ws@ == col_words(matrix@, r as int, row_size as int, col_size as int),
{
    let mlen: usize = matrix.size();
    let mut ws: Vec<u32> = Vec::new();
    let mut i: usize = 0;
    while i < col_size
        invariant
            i <= col_size,
            r < row_size,
            mlen == matrix@.len(),
            col_size * row_size <= mlen,
            ws@.len() == i,
            forall|t: int| 0 <= t < i ==> ws@[t] == matrix@[t * row_size + r].repr,
        decreases col_size - i,
    {
        proof {
            vstd::arithmetic::mul::lemma_mul_inequality(
                i as int + 1,
                col_size as int,
                row_size as int,
            );
            assert((i + 1) as int * (row_size as int) == i as int * (row_size as int) + row_size)
                by (nonlinear_arith);
        }
        let v = matrix.get_at(i * row_size + r);
        ws.push(v.repr);
        i += 1;
    }
    proof {
        assert(ws@ =~= col_words(matrix@, r as int, row_size as int, col_size as int));
    }
    ws
}

impl CpuHal {
    /// Batched linear combination: input polynomial `i` scaled by
    /// `mix_start·mix^i` is accumulated into the output bucket `combos[i]`
    /// selects; every output cell is overwritten with its full sum.
    pub fn mix_poly_coeffs(
        &self,
        output: &mut Buf<FpExt>,
        mix_start: &FpExt,
        mix: &FpExt,
        input: &Buf<Fp>,
        combos: &Buf<u32>,
        input_size: usize,
        count: usize,
    )
        requires
            count > 0,
            old(output)@.len() as int % (count as int) == 0,
            input_size * count <= input@.len(),
            combos@.len() == input_size,
            old(output)@.len() <= 0xffff_ffff,
            mix_start.is_valid(),
            mix.is_valid(),
            forall|i: int| 0 <= i < input@.len() ==> (#[trigger] input@[i]).is_valid(),
        ensures
            final(output)@.len() == old(output)@.len(),
            forall|j: int|
                0 <= j < old(output)@.len() ==> (#[trigger] final(output)@[j]) == mix_sum(
                    input@,
                    combos@,
                    count as int,
                    *mix_start,
                    *mix,
                    j / (count as int),
                    j % (count as int),
                    input_size as int,
                ),
    {
        let n: usize = output.size();
        let mut j: usize = 0;
        while j < n
            invariant
                j <= n,
                count > 0,
                n == output@.len(),
                output@.len() == old(output)@.len(),
                n <= 0xffff_ffff,
                input_size * count <= input@.len(),
                combos@.len() == input_size,
                mix_start.is_valid(),
                mix.is_valid(),
                forall|t: int| 0 <= t < input@.len() ==> (#[trigger] input@[t]).is_valid(),
                forall|t: int|
                    0 <= t < j ==> (#[trigger] output@[t]) == mix_sum(
                        input@,
                        combos@,
                        count as int,
                        *mix_start,
                        *mix,
                        t / (count as int),
                        t % (count as int),
                        input_size as int,
                    ),
            decreases n - j,
        {
            proof {
                vstd::arithmetic::div_mod::lemma_mod_bound(j as int, count as int);
            }
            let b: usize = j / count;
            let k: usize = j % count;
            let v = mix_cell_sum(input, combos, count, b as u32, k, mix_start, mix, input_size);
            proof {
                assert(b as int == j as int / count as int);
                assert((b as u32) as int == j as int / count as int) by {
                    vstd::arithmetic::div_mod::lemma_div_is_ordered(
                        j as int,
                        0xffff_ffff,
                        count as int,
                    );
                    vstd::arithmetic::div_mod::lemma_div_pos_is_pos(j as int, count as int);
                    vstd::arithmetic::div_mod::lemma_div_nonincreasing(j as int, count as int);
                };
            }
            output.set_at(j, v);
            j += 1;
        }
    }

    /// Evaluate chosen coefficient rows at chosen points:
    /// `out[i] = eval(coeffs[which[i]], xs[i])` by Horner's rule.
    pub fn batch_evaluate_any(
        &self,
        coeffs: &Buf<Fp>,
        poly_count: usize,
        which: &Buf<u32>,
        xs: &Buf<FpExt>,
        out: &mut Buf<FpExt>,
    )
        requires
            poly_count > 0,
            coeffs@.len() == poly_count * (coeffs@.len() as int / poly_count as int),
            which@.len() == xs@.len(),
            old(out)@.len() == xs@.len(),
            forall|i: int| 0 <= i < which@.len() ==> (#[trigger] which@[i]) < poly_count,
            forall|i: int| 0 <= i < xs@.len() ==> (#[trigger] xs@[i]).is_valid(),
            forall|i: int| 0 <= i < coeffs@.len() ==> (#[trigger] coeffs@[i]).is_valid(),
        ensures
            final(out)@.len() == old(out)@.len(),
            forall|i: int|
                0 <= i < old(out)@.len() ==> {
                    let count = coeffs@.len() as int / poly_count as int;
                    (#[trigger] final(out)@[i]) == poly_eval_ext(
                        coeffs@.subrange(which@[i] * count, which@[i] * count + count),
                        xs@[i],
                    )
                },
    {
        let m: usize = coeffs.size();
        let count: usize = m / poly_count;
        let n: usize = out.size();
        proof {
            vstd::arithmetic::div_mod::lemma_fundamental_div_mod(m as int, poly_count as int);
        }
        let mut i: usize = 0;
        while i < n
            invariant
                i <= n,
                poly_count > 0,
                m == coeffs@.len(),
                count == m as int / poly_count as int,
                m == poly_count * count,
                n == out@.len(),
                out@.len() == old(out)@.len(),
                which@.len() == n,
                xs@.len() == n,
                forall|t: int| 0 <= t < which@.len() ==> (#[trigger] which@[t]) < poly_count,
                forall|t: int| 0 <= t < xs@.len() ==> (#[trigger] xs@[t]).is_valid(),
                forall|t: int| 0 <= t < coeffs@.len() ==> (#[trigger] coeffs@[t]).is_valid(),
                forall|t: int|
                    0 <= t < i ==> (#[trigger] out@[t]) == poly_eval_ext(
                        coeffs@.subrange(
                            which@[t] * (count as int),
                            which@[t] * (count as int) + count,
                        ),
                        xs@[t],
                    ),
            decreases n - i,
        {
            let w = which.get_at(i);
            let x = xs.get_at(i);
            proof {
                vstd::arithmetic::mul::lemma_mul_inequality(
                    w as int + 1,
                    poly_count as int,
                    count as int,
                );
                assert((w + 1) as int * (count as int) == w as int * (count as int) + count)
                    by (nonlinear_arith);
            }
            let v = eval_poly(coeffs, (w as usize) * count, count, &x);
            out.set_at(i, v);
            i += 1;
        }
    }

    /// Merkle row commitment: hash each strided matrix column into one
    /// digest.
    pub fn hash_rows(&self, output: &mut Buf<Digest>, matrix: &Buf<Fp>)
        requires
            old(output)@.len() > 0,
            matrix@.len() == (matrix@.len() as int / old(output)@.len() as int) * old(output)@.len(),
        ensures
            final(output)@.len() == old(output)@.len(),
            forall|r: int|
                0 <= r < old(output)@.len() ==> (#[trigger] final(output)@[r])@ == sha_words_of(
                    col_words(
                        matrix@,
                        r,
                        old(output)@.len() as int,
                        matrix@.len() as int / old(output)@.len() as int,
                    ),
                ),
    {
        let row_size: usize = output.size();
        let col_size: usize = matrix.size() / row_size;
        let mut r: usize = 0;
        while r < row_size
            invariant
                r <= row_size,
                row_size == output@.len(),
                output@.len() == old(output)@.len(),
                row_size > 0,
                col_size == matrix@.len() as int / row_size as int,
                matrix@.len() == col_size * row_size,
                forall|t: int|
                    0 <= t < r ==> (#[trigger] output@[t])@ == sha_words_of(
                        col_words(matrix@, t, row_size as int, col_size as int),
                    ),
            decreases row_size - r,
        {
            let ws = column_words(matrix, r, row_size, col_size);
            let d = hash_words(&ws);
            output.set_at(r, d);
            r += 1;
        }
    }

    /// One Merkle fold layer: hash the digest pairs at
    /// `[2·output_size, 4·output_size)` into `[output_size, 2·output_size)`.
    pub fn hash_fold(&self, io: &mut Buf<Digest>, input_size: usize, output_size: usize)
        requires
            input_size == 2 * output_size,
            output_size >= 1,
            4 * output_size <= old(io)@.len(),
        ensures
            final(io)@.len() == old(io)@.len(),
            forall|j: int|
                output_size <= j < 2 * output_size ==> (#[trigger] final(io)@[j])@ == sha_words_of(
                    pair_words(old(io)@[2 * j]@, old(io)@[2 * j + 1]@),
                ),
            forall|j: int|
                0 <= j < old(io)@.len() && !(output_size <= j < 2 * output_size) ==> final(io)@[j] == old(io)@[j],
    {
        let iolen: usize = io.size();
        let mut j: usize = output_size;
        while j < 2 * output_size
            invariant
                output_size <= j <= 2 * output_size,
                iolen == io@.len(),
                4 * output_size <= iolen,
                io@.len() == old(io)@.len(),
                forall|t: int|
                    output_size <= t < j ==> (#[trigger] io@[t])@ == sha_words_of(
                        pair_words(old(io)@[2 * t]@, old(io)@[2 * t + 1]@),
                    ),
                forall|t: int|
                    0 <= t < old(io)@.len() && !(output_size <= t < j) ==> io@[t] == old(io)@[t],
            decreases 2 * output_size - j,
        {
            let a = io.get_at(2 * j);
            let b = io.get_at(2 * j + 1);
            let d = hash_pair(&a, &b);
            io.set_at(j, d);
            j += 1;
        }
    }

    /// Repeated folding: each call halves the active region, and after
    /// `levels` rounds the Merkle root of the `n = 2^levels` leaves at
    /// `[n, 2n)` sits at index 1.
    pub fn hash_fold_tower(&self, io: &mut Buf<Digest>, levels: usize, n: usize)
        requires
            n == pow2(levels as nat),
            2 * n <= old(io)@.len(),
            n >= 1,
        ensures
            final(io)@.len() == old(io)@.len(),
            forall|j: int|
                1 <= j < 2 * n ==> (#[trigger] final(io)@[j])@ == node_val(old(io)@, n as int, j),
            forall|j: int|
                0 <= j < old(io)@.len() && !(1 <= j < 2 * n) ==> final(io)@[j] == old(io)@[j],
    {
        let ghost d0 = io@;
        let mut sz: usize = n;
        let mut m: usize = levels;
        proof {
            vstd::arithmetic::power2::lemma_pow2_pos(levels as nat);
        }
        while m > 0
            invariant
                m <= levels,
                sz == pow2(m as nat),
                sz >= 1,
                sz <= n,
                n == pow2(levels as nat),
                2 * n <= io@.len(),
                io@.len() == d0.len(),
                d0 == old(io)@,
                forall|j: int|
                    sz <= j < 2 * n ==> (#[trigger] io@[j])@ == node_val(d0, n as int, j),
                forall|j: int|
                    0 <= j < d0.len() && !(sz <= j < 2 * n) ==> io@[j] == d0[j],
            decreases m,
        {
            let o: usize = sz / 2;
            proof {
                vstd::arithmetic::power2::lemma_pow2_unfold(m as nat);
                vstd::arithmetic::power2::lemma_pow2_pos((m - 1) as nat);
                if (m - 1) as nat <= levels as nat && m - 1 < levels {
                    vstd::arithmetic::power2::lemma_pow2_strictly_increases(
                        (m - 1) as nat,
                        levels as nat,
                    );
                }
            }
            let ghost pre = io@;
            self.hash_fold(io, 2 * o, o);
            proof {
                assert forall|j: int|
                    o <= j < 2 * n implies (#[trigger] io@[j])@ == node_val(d0, n as int, j) by {
                    if j < 2 * o {
                        assert(io@[j]@ == sha_words_of(pair_words(pre[2 * j]@, pre[2 * j + 1]@)));
                        assert(pre[2 * j]@ == node_val(d0, n as int, 2 * j));
                        assert(pre[2 * j + 1]@ == node_val(d0, n as int, 2 * j + 1));
                        assert(j < n);
                    } else {
                        assert(io@[j] == pre[j]);
                    }
                };
            }
            sz = o;
            m -= 1;
        }
        proof {
            vstd::arithmetic::power2::lemma2_to64();
        }
    }
}

/// Splitting a budget with integer division keeps the product within it.
proof fn lemma_budget_split(budget: int, a: int, b: int)
    requires
        budget >= 1,
        1 <= a <= budget,
        1 <= b <= budget / a,
    ensures
        a * b <= budget,
{
    vstd::arithmetic::div_mod::lemma_fundamental_div_mod(budget, a);
    vstd::arithmetic::div_mod::lemma_mod_bound(budget, a);
    vstd::arithmetic::mul::lemma_mul_inequality(b, budget / a, a);
    assert(a * b == b * a) by (nonlinear_arith);
    assert((budget / a) * a <= budget);
}

/// The same, over three factors.
proof fn lemma_budget_split3(budget: int, a: int, b: int, c: int)
    requires
        budget >= 1,
        1 <= a <= budget,
        1 <= b <= budget / a,
        b >= 1,
        1 <= c <= (budget / a) / b,
    ensures
        a * b * c <= budget,
{
    vstd::arithmetic::div_mod::lemma_fundamental_div_mod(budget, a);
    vstd::arithmetic::div_mod::lemma_mod_bound(budget, a);
    vstd::arithmetic::div_mod::lemma_fundamental_div_mod(budget / a, b);
    vstd::arithmetic::div_mod::lemma_mod_bound(budget / a, b);
    vstd::arithmetic::mul::lemma_mul_inequality(c, (budget / a) / b, b);
    assert(b * ((budget / a) / b) <= budget / a);
    assert(b * c <= budget / a) by {
        assert(b * c == c * b) by (nonlinear_arith);
        assert(((budget / a) / b) * b == b * ((budget / a) / b)) by (nonlinear_arith);
    };
    vstd::arithmetic::mul::lemma_mul_inequality(b * c, budget / a, a);
    assert(a * (b * c) == (b * c) * a) by (nonlinear_arith);
    assert((budget / a) * a <= budget);
    assert(a * b * c == a * (b * c)) by (nonlinear_arith);
}

} // verus!
