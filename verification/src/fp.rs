//! BabyBear base-field elements.
//!
//! An `Fp` carries a raw `u32`: either a canonical residue modulo `P` or the
//! out-of-range `INVALID` sentinel that marks an uninitialized witness cell.

use vstd::prelude::*;
use vstd::arithmetic::div_mod::{
    lemma_mod_bound, lemma_mul_mod_noop_general, lemma_mod_add_multiples_vanish, lemma_small_mod,
};
use vstd::arithmetic::power::{
    pow, lemma_pow1, lemma_pow_adds, lemma_pow_multiplies, lemma_square_is_pow2,
    lemma_pow_mod_noop,
};
use vstd::arithmetic::mul::lemma_mul_is_associative;

verus! {

/// The BabyBear prime, 15 * 2^27 + 1.
pub const P: u32 = 2013265921;

/// The raw encoding of the `INVALID` sentinel; it lies outside `[0, P)`.
pub const INVALID_REPR: u32 = 0xffff_ffff;

/// A BabyBear base-field element, or the `INVALID` sentinel.
#[derive(Clone, Copy, Debug, PartialEq, Eq, Structural)]
pub struct Fp {
    pub repr: u32,
}

/// The element whose residue is `x` reduced modulo `P`.
pub open spec fn fpv(x: int) -> Fp {
    Fp { repr: (x % (P as int)) as u32 }
}

/// `b^e mod P`, the reference semantics for exponentiation.
pub open spec fn pow_mod(b: int, e: nat) -> int {
    pow(b, e) % (P as int)
}

/// A reduced value is always a canonical residue.
pub proof fn lemma_fpv_valid(x: int)
    ensures
        fpv(x).is_valid(),
        fpv(x).repr == x % (P as int),
{
    lemma_mod_bound(x, P as int);
}

impl Fp {
    /// A canonical residue; the sentinel and every other out-of-range encoding
    /// are excluded.
    pub open spec fn is_valid(self) -> bool {
        self.repr < P
    }

    /// The additive identity.
    pub fn zero() -> (r: Fp)
        ensures
            r == (Fp { repr: 0u32 }),
    {
        Fp { repr: 0 }
    }

    /// The multiplicative identity.
    pub fn one() -> (r: Fp)
        ensures
            r == (Fp { repr: 1u32 }),
    {
        Fp { repr: 1 }
    }

    /// The sentinel for an uninitialized witness cell.
    pub fn invalid() -> (r: Fp)
        ensures
            r == (Fp { repr: INVALID_REPR }),
            !r.is_valid(),
    {
        Fp { repr: INVALID_REPR }
    }

    /// A canonical residue from a raw value already known to be in range.
    pub fn new(x: u32) -> (r: Fp)
        requires
            x < P,
        ensures
            r == (Fp { repr: x }),
            r.is_valid(),
    {
        Fp { repr: x }
    }

    /// Identity on canonical residues, `ZERO` on the sentinel (and on any
    /// other out-of-range encoding).
    pub fn valid_or_zero(self) -> (r: Fp)
        ensures
            self.is_valid() ==> r == self,
            !self.is_valid() ==> r == (Fp { repr: 0u32 }),
            r.is_valid(),
    {
        if self.repr < P {
            self
        } else {
            Fp { repr: 0 }
        }
    }

    /// Field addition.
    pub fn add(self, rhs: Fp) -> (r: Fp)
        requires
            self.is_valid(),
            rhs.is_valid(),
        ensures
            r.is_valid(),
            r == fpv(self.repr + rhs.repr),
    {
        let s: u64 = self.repr as u64 + rhs.repr as u64;
        let out: u32 = if s >= P as u64 {
            (s - P as u64) as u32
        } else {
            s as u32
        };
        proof {
            let a = self.repr as int + rhs.repr as int;
            let p = P as int;
            if a >= p {
                lemma_mod_add_multiples_vanish(a - p, p);
                lemma_small_mod((a - p) as nat, p as nat);
            } else {
                lemma_small_mod(a as nat, p as nat);
            }
        }
        Fp { repr: out }
    }

    /// Field subtraction.
    pub fn sub(self, rhs: Fp) -> (r: Fp)
        requires
            self.is_valid(),
            rhs.is_valid(),
        ensures
            r.is_valid(),
            r == fpv(self.repr - rhs.repr),
    {
        let d: u64 = self.repr as u64 + P as u64 - rhs.repr as u64;
        let out: u32 = if d >= P as u64 {
            (d - P as u64) as u32
        } else {
            d as u32
        };
        proof {
            let a = self.repr as int - rhs.repr as int;
            let p = P as int;
            lemma_mod_add_multiples_vanish(a, p);
            if a >= 0 {
                lemma_small_mod(a as nat, p as nat);
                assert((a + p) - p == a);
                lemma_mod_add_multiples_vanish(a, p);
            } else {
                lemma_small_mod((a + p) as nat, p as nat);
            }
        }
        Fp { repr: out }
    }

    /// Field multiplication.
    pub fn mul(self, rhs: Fp) -> (r: Fp)
        requires
            self.is_valid(),
            rhs.is_valid(),
        ensures
            r.is_valid(),
            r == fpv(self.repr * rhs.repr),
    {
        proof {
            vstd::arithmetic::mul::lemma_mul_upper_bound(
                self.repr as int,
                0xffff_ffff,
                rhs.repr as int,
                0xffff_ffff,
            );
        }
        let prod: u64 = self.repr as u64 * rhs.repr as u64;
        let out: u32 = (prod % P as u64) as u32;
        proof {
            lemma_mod_bound(prod as int, P as int);
        }
        Fp { repr: out }
    }

    /// Square-and-multiply exponentiation: `self^e mod P`.
    pub fn pow(self, e: u32) -> (r: Fp)
        requires
            self.is_valid(),
        ensures
            r.is_valid(),
            r == fpv(pow(self.repr as int, e as nat)),
    {
        let mut result = Fp::one();
        let mut base = self;
        let mut exp: u32 = e;
        proof {
            vstd::arithmetic::power::lemma_pow0(base.repr as int);
        }
        while exp > 0
            invariant
                result.is_valid(),
                base.is_valid(),
                (result.repr * pow(base.repr as int, exp as nat)) % (P as int) == pow_mod(
                    self.repr as int,
                    e as nat,
                ),
            decreases exp,
        {
            let ghost r0 = result.repr as int;
            let ghost b0 = base.repr as int;
            let ghost e0 = exp as nat;
            let ghost p = P as int;
            let odd = exp % 2 == 1;
            if odd {
                result = result.mul(base);
            }
            base = base.mul(base);
            exp = exp / 2;
            proof {
                let e1 = exp as nat;
                // pow of the squared base, with its reduction folded away
                lemma_pow_mod_noop(b0 * b0, e1, p);
                lemma_square_is_pow2(b0);
                lemma_pow_multiplies(b0, 2, e1);
                assert(pow(base.repr as int, e1) % p == pow(b0, (2 * e1) as nat) % p);
                if odd {
                    assert(e0 == 2 * e1 + 1);
                    lemma_pow_adds(b0, (2 * e1) as nat, 1);
                    lemma_pow1(b0);
                    assert(pow(b0, e0) == pow(b0, (2 * e1) as nat) * b0);
                    assert((result.repr * pow(base.repr as int, e1)) % p == ((r0 * b0) * pow(
                        b0,
                        (2 * e1) as nat,
                    )) % p) by {
                        lemma_mul_mod_noop_general(r0 * b0, pow(base.repr as int, e1), p);
                        lemma_mul_mod_noop_general(r0 * b0, pow(b0, (2 * e1) as nat), p);
                    };
                    assert((r0 * b0) * pow(b0, (2 * e1) as nat) == r0 * pow(b0, e0)) by {
                        lemma_mul_is_associative(r0, b0, pow(b0, (2 * e1) as nat));
                        lemma_mul_is_associative(r0, pow(b0, (2 * e1) as nat), b0);
                        assert(b0 * pow(b0, (2 * e1) as nat) == pow(b0, (2 * e1) as nat) * b0)
                            by (nonlinear_arith);
                    };
                    assert((r0 * pow(b0, e0)) % p == pow_mod(self.repr as int, e as nat));
                } else {
                    assert(e0 == 2 * e1);
                    assert((result.repr * pow(base.repr as int, e1)) % p == (r0 * pow(
                        b0,
                        (2 * e1) as nat,
                    )) % p) by {
                        lemma_mul_mod_noop_general(r0, pow(base.repr as int, e1), p);
                        lemma_mul_mod_noop_general(r0, pow(b0, (2 * e1) as nat), p);
                    };
                }
            }
        }
        proof {
            vstd::arithmetic::power::lemma_pow0(base.repr as int);
            lemma_small_mod(result.repr as nat, P as nat);
        }
        result
    }

    /// Multiplicative inverse of a nonzero residue, by Fermat's little theorem.
    pub fn inv(self) -> (r: Fp)
        requires
            self.is_valid(),
        ensures
            r.is_valid(),
            r == fpv(pow(self.repr as int, (P - 2) as nat)),
    {
        self.pow(P - 2)
    }
}

} // verus!
