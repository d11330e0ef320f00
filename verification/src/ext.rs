//! Degree-4 extension of the BabyBear field.
//!
//! Elements are polynomials `c0 + c1·x + c2·x² + c3·x³` over `Fp`, reduced
//! by `x⁴ = -BETA` with `BETA = 11`; the coefficient specifications below
//! spell out exactly that reduction.

use vstd::prelude::*;
use crate::fp::{Fp, fpv};

verus! {

/// The reduction constant: `x⁴ = -BETA`.
pub const BETA: u32 = 11;

/// An extension element by its four base-field coefficients.
#[derive(Clone, Copy, Debug, PartialEq, Eq, Structural)]
pub struct FpExt {
    pub c0: Fp,
    pub c1: Fp,
    pub c2: Fp,
    pub c3: Fp,
}

/// Base-field addition at the specification level.
pub open spec fn fadd(a: Fp, b: Fp) -> Fp {
    fpv(a.repr + b.repr)
}

/// Base-field subtraction at the specification level.
pub open spec fn fsub(a: Fp, b: Fp) -> Fp {
    fpv(a.repr - b.repr)
}

/// Base-field multiplication at the specification level.
pub open spec fn fmul(a: Fp, b: Fp) -> Fp {
    fpv(a.repr * b.repr)
}

/// Componentwise extension addition.
pub open spec fn ext_add(a: FpExt, b: FpExt) -> FpExt {
    FpExt {
        c0: fadd(a.c0, b.c0),
        c1: fadd(a.c1, b.c1),
        c2: fadd(a.c2, b.c2),
        c3: fadd(a.c3, b.c3),
    }
}

/// Extension multiplication: polynomial product reduced by `x⁴ = -BETA`.
pub open spec fn ext_mul(a: FpExt, b: FpExt) -> FpExt {
    let beta = Fp { repr: BETA };
    FpExt {
        c0: fsub(
            fmul(a.c0, b.c0),
            fmul(beta, fadd(fadd(fmul(a.c1, b.c3), fmul(a.c2, b.c2)), fmul(a.c3, b.c1))),
        ),
        c1: fsub(
            fadd(fmul(a.c0, b.c1), fmul(a.c1, b.c0)),
            fmul(beta, fadd(fmul(a.c2, b.c3), fmul(a.c3, b.c2))),
        ),
        c2: fsub(
            fadd(fadd(fmul(a.c0, b.c2), fmul(a.c1, b.c1)), fmul(a.c2, b.c0)),
            fmul(beta, fmul(a.c3, b.c3)),
        ),
        c3: fadd(
            fadd(fadd(fmul(a.c0, b.c3), fmul(a.c1, b.c2)), fmul(a.c2, b.c1)),
            fmul(a.c3, b.c0),
        ),
    }
}

/// Scaling by a base-field element.
pub open spec fn ext_scale(a: FpExt, s: Fp) -> FpExt {
    FpExt { c0: fmul(a.c0, s), c1: fmul(a.c1, s), c2: fmul(a.c2, s), c3: fmul(a.c3, s) }
}

/// Embedding of the base field.
pub open spec fn ext_from(s: Fp) -> FpExt {
    FpExt { c0: s, c1: (Fp { repr: 0u32 }), c2: (Fp { repr: 0u32 }), c3: (Fp { repr: 0u32 }) }
}

impl FpExt {
    /// All four coefficients are canonical residues.
    pub open spec fn is_valid(self) -> bool {
        self.c0.is_valid() && self.c1.is_valid() && self.c2.is_valid() && self.c3.is_valid()
    }

    /// The additive identity.
    pub fn zero() -> (r: FpExt)
        ensures
            r == ext_from(Fp { repr: 0u32 }),
            r.is_valid(),
    {
        FpExt { c0: Fp::zero(), c1: Fp::zero(), c2: Fp::zero(), c3: Fp::zero() }
    }

    /// The multiplicative identity.
    pub fn one() -> (r: FpExt)
        ensures
            r == ext_from(Fp { repr: 1u32 }),
            r.is_valid(),
    {
        FpExt { c0: Fp::one(), c1: Fp::zero(), c2: Fp::zero(), c3: Fp::zero() }
    }

    /// Embed a base-field element.
    pub fn from_fp(s: Fp) -> (r: FpExt)
        requires
            s.is_valid(),
        ensures
            r == ext_from(s),
            r.is_valid(),
    {
        FpExt { c0: s, c1: Fp::zero(), c2: Fp::zero(), c3: Fp::zero() }
    }

    /// Build an element from its four coefficients.
    pub fn new(c0: Fp, c1: Fp, c2: Fp, c3: Fp) -> (r: FpExt)
        ensures
            r == (FpExt { c0, c1, c2, c3 }),
    {
        FpExt { c0, c1, c2, c3 }
    }

    /// Extension addition.
    pub fn add(self, rhs: FpExt) -> (r: FpExt)
        requires
            self.is_valid(),
            rhs.is_valid(),
        ensures
            r == ext_add(self, rhs),
            r.is_valid(),
    {
        FpExt {
            c0: self.c0.add(rhs.c0),
            c1: self.c1.add(rhs.c1),
            c2: self.c2.add(rhs.c2),
            c3: self.c3.add(rhs.c3),
        }
    }

    /// Extension multiplication.
    pub fn mul(self, rhs: FpExt) -> (r: FpExt)
        requires
            self.is_valid(),
            rhs.is_valid(),
        ensures
            r == ext_mul(self, rhs),
            r.is_valid(),
    {
        let beta = Fp::new(BETA);
        let a = self;
        let b = rhs;
        let c0 = a.c0.mul(b.c0).sub(
            beta.mul(a.c1.mul(b.c3).add(a.c2.mul(b.c2)).add(a.c3.mul(b.c1))),
        );
        let c1 = a.c0.mul(b.c1).add(a.c1.mul(b.c0)).sub(
            beta.mul(a.c2.mul(b.c3).add(a.c3.mul(b.c2))),
        );
        let c2 = a.c0.mul(b.c2).add(a.c1.mul(b.c1)).add(a.c2.mul(b.c0)).sub(
            beta.mul(a.c3.mul(b.c3)),
        );
        let c3 = a.c0.mul(b.c3).add(a.c1.mul(b.c2)).add(a.c2.mul(b.c1)).add(a.c3.mul(b.c0));
        FpExt { c0, c1, c2, c3 }
    }

    /// Scale by a base-field element.
    pub fn scale(self, s: Fp) -> (r: FpExt)
        requires
            self.is_valid(),
            s.is_valid(),
        ensures
            r == ext_scale(self, s),
            r.is_valid(),
    {
        FpExt { c0: self.c0.mul(s), c1: self.c1.mul(s), c2: self.c2.mul(s), c3: self.c3.mul(s) }
    }
}

} // verus!
