//! Hashing for Merkle row and fold commitments.
//!
//! The configured hash family is SHA-256, carried by the `sha2` crate
//! behind one trusted wrapper; what a hash of a word sequence is, is known
//! to the verifier only by the name `sha_words_of`.

use vstd::prelude::*;

verus! {

/// Number of 32-bit words in a digest.
pub const DIGEST_WORDS: usize = 8;

/// A hash digest of eight 32-bit words.
#[derive(Clone, Copy, Debug, PartialEq, Eq)]
pub struct Digest {
    pub words: [u32; 8],
}

impl View for Digest {
    type V = Seq<u32>;

    open spec fn view(&self) -> Seq<u32> {
        self.words@
    }
}

/// The hash family a HAL was constructed with.
#[derive(Clone, Copy, Debug, PartialEq, Eq, Structural)]
pub enum HashSuiteKind {
    Sha256,
}

/// The digest of a word sequence under the configured hash; a function of
/// the words alone.
pub uninterp spec fn sha_words_of(ws: Seq<u32>) -> Seq<u32>;

/// Relies on sha2's `Sha256`: the digest depends on the input words alone;
/// each input word is fed little-endian, and the 32 output bytes are read
/// back as eight little-endian words.
#[verifier::external_body]
fn sha_words(ws: &Vec<u32>) -> (r: Digest)
    ensures
        r@ == sha_words_of(ws@),
        r@.len() == 8,
{
    let mut h = <sha2::Sha256 as sha2::Digest>::new();
    for w in ws.iter() {
        sha2::Digest::update(&mut h, w.to_le_bytes());
    }
    let out = sha2::Digest::finalize(h);
    let mut words = [0u32; 8];
    for (i, ch) in out.chunks_exact(4).enumerate() {
        words[i] = u32::from_le_bytes([ch[0], ch[1], ch[2], ch[3]]);
    }
    Digest { words }
}

/// The words of two digests, in order: what a Merkle fold hashes.
pub open spec fn pair_words(a: Seq<u32>, b: Seq<u32>) -> Seq<u32> {
    a + b
}

/// Hash one digest pair, as a Merkle fold does.
pub fn hash_pair(a: &Digest, b: &Digest) -> (r: Digest)
    ensures
        r@ == sha_words_of(pair_words(a@, b@)),
        r@.len() == 8,
{
    let mut ws: Vec<u32> = Vec::new();
    let mut i: usize = 0;
    while i < 8
        invariant
            i <= 8,
            ws@ == a@.subrange(0, i as int),
        decreases 8 - i,
    {
        ws.push(a.words[i]);
        proof {
            assert(ws@ =~= a@.subrange(0, i + 1));
        }
        i += 1;
    }
    proof {
        assert(ws@ =~= a@);
    }
    let mut i: usize = 0;
    while i < 8
        invariant
            i <= 8,
            ws@ == a@ + b@.subrange(0, i as int),
        decreases 8 - i,
    {
        ws.push(b.words[i]);
        proof {
            assert(ws@ =~= a@ + b@.subrange(0, i + 1));
        }
        i += 1;
    }
    proof {
        assert(ws@ =~= a@ + b@);
    }
    sha_words(&ws)
}

/// Hash an arbitrary word column, as a Merkle row commitment does.
pub fn hash_words(ws: &Vec<u32>) -> (r: Digest)
    ensures
        r@ == sha_words_of(ws@),
        r@.len() == 8,
{
    sha_words(ws)
}

} // verus!
