//! Randomness for the zero-knowledge noise rows.
//!
//! The draws come from `rand`'s `StdRng`; nothing is promised of a random
//! value, so the verified sampler states only that its result is a canonical
//! field element.

use vstd::prelude::*;
use crate::fp::{Fp, P};

verus! {

/// Declares rand's `StdRng` so buffers of randomness can flow through
/// verified signatures; the type stays opaque to the verifier.
#[verifier::external_type_specification]
#[verifier::external_body]
pub struct ExStdRng(rand::rngs::StdRng);

/// Relies on rand's `Rng::next_u32`; nothing is promised of a random draw.
#[verifier::external_body]
fn rng_next_u32(rng: &mut rand::rngs::StdRng) -> u32 {
    rand::Rng::next_u32(rng)
}

/// A uniformly random canonical field element, by rejection sampling from
/// 31-bit draws; after a bounded number of rejections the last draw is
/// reduced instead, so the sampler always returns a valid element.
pub fn fp_random(rng: &mut rand::rngs::StdRng) -> (r: Fp)
    ensures
        r.is_valid(),
{
    let mut tries: usize = 0;
    while tries < 64
        invariant
            tries <= 64,
        decreases 64 - tries,
    {
        let draw = rng_next_u32(rng) % 0x8000_0000;
        if draw < P {
            return Fp::new(draw);
        }
        tries += 1;
    }
    let draw = rng_next_u32(rng) % P;
    Fp::new(draw)
}

} // verus!
