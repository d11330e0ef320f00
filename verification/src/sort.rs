//! Verified sort for the machine context's key columns.
//!
//! The exec sort is an insertion sort, which moves each key only past
//! strictly greater keys and is therefore stable; its result is pinned to
//! the canonical `sort_by` of the input, so equal inputs sort equally in
//! every run.

use vstd::prelude::*;
use vstd::seq_lib::{lemma_multiset_commutative, lemma_sorted_unique};
use vstd::relations::sorted_by;
use crate::circuit::{key_le, lemma_key_le_total};

verus! {

/// `insert` adds exactly one occurrence to the multiset.
proof fn lemma_insert_to_multiset(s: Seq<u32>, p: int, x: u32)
    requires
        0 <= p <= s.len(),
    ensures
        s.insert(p, x).to_multiset() == s.to_multiset().insert(x),
{
    let pre = s.subrange(0, p);
    let suf = s.subrange(p, s.len() as int);
    assert(s.insert(p, x) == pre.push(x) + suf);
    lemma_multiset_commutative(pre.push(x), suf);
    pre.to_multiset_ensures();
    lemma_multiset_commutative(pre, suf);
    assert(pre + suf =~= s);
    assert(pre.push(x).to_multiset() =~= pre.to_multiset().insert(x));
    assert(pre.to_multiset().insert(x).add(suf.to_multiset()) =~= pre.to_multiset().add(
        suf.to_multiset(),
    ).insert(x));
}

/// In-place stable sort of a key column, pinned to the canonical sorted
/// ordering of its contents.
#[verifier::rlimit(60)]
pub fn sort_keys(v: &mut Vec<u32>)
    ensures
        final(v)@ == old(v)@.sort_by(key_le()),
        final(v)@.len() == old(v)@.len(),
{
    let ghost orig = v@;
    let n: usize = v.len();
    let mut i: usize = 1;
    while i < n
        invariant
            n == v@.len(),
            n == orig.len(),
            1 <= i || n == 0,
            i <= n || n <= 1,
            sorted_by(v@.subrange(0, if i < n { i as int } else { n as int }), key_le()),
            v@.to_multiset() == orig.to_multiset(),
        decreases n - i,
    {
        let ghost s = v@;
        let x = v[i];
        let mut p: usize = i;
        while p > 0 && v[p - 1] > x
            invariant
                p <= i,
                i < n,
                n == v@.len(),
                v@ == s,
                x == s[i as int],
                forall|k: int| p <= k < i ==> x < s[k],
            decreases p,
        {
            p -= 1;
        }
        proof {
            assert(p == 0 || s[p - 1] <= x);
        }
        let y = v.remove(i);
        v.insert(p, y);
        proof {
            let ii = i as int;
            let pp = p as int;
            let t = s.remove(ii);
            s.remove_ensures(ii);
            t.insert_ensures(pp, x);
            assert(v@ == t.insert(pp, x));
            // multiset is preserved: one occurrence of x out, one back in
            s.to_multiset_ensures();
            lemma_insert_to_multiset(t, pp, x);
            assert(s.contains(x));
            assert(t.to_multiset().insert(x) =~= s.to_multiset());
            // the old prefix is totally ordered
            assert forall|k1: int, k2: int| 0 <= k1 <= k2 < ii implies s[k1] <= s[k2] by {
                if k1 < k2 {
                    assert(key_le()(s.subrange(0, ii)[k1], s.subrange(0, ii)[k2]));
                }
            };
            // everything before the insertion point is at most x
            assert forall|k: int| 0 <= k < pp implies s[k] <= x by {
                assert(s[k] <= s[pp - 1]);
            };
            // the new prefix, element by element
            let pref = v@.subrange(0, ii + 1);
            assert(forall|k: int| 0 <= k < pp ==> pref[k] == s[k]);
            assert(pref[pp] == x);
            assert forall|k: int| pp < k <= ii implies pref[k] == s[k - 1] by {
                assert(v@[k] == t[k - 1]);
            };
            assert forall|a: int, b: int| 0 <= a < b < ii + 1 implies key_le()(pref[a], pref[b]) by {
                if b < pp {
                    assert(pref[a] == s[a] && pref[b] == s[b]);
                } else if b == pp {
                    assert(pref[b] == x && pref[a] == s[a] && s[a] <= x);
                } else if a < pp {
                    assert(pref[a] == s[a] && s[a] <= x);
                    assert(pref[b] == s[b - 1]);
                    if b - 1 < ii {
                        assert(x < s[b - 1]);
                    }
                } else if a == pp {
                    assert(pref[a] == x && pref[b] == s[b - 1]);
                    if b - 1 < ii {
                        assert(x < s[b - 1]);
                    }
                } else {
                    assert(pref[a] == s[a - 1] && pref[b] == s[b - 1]);
                }
            };
            assert(sorted_by(pref, key_le()));
        }
        i += 1;
        proof {
            if i < n {
                assert(v@.subrange(0, i as int) =~= v@.subrange(0, i as int));
            } else {
                assert(v@.subrange(0, n as int) =~= v@.subrange(0, i as int));
            }
        }
    }
    proof {
        lemma_key_le_total();
        orig.lemma_sort_by_ensures(key_le());
        let srt = orig.sort_by(key_le());
        orig.to_multiset_ensures();
        srt.to_multiset_ensures();
        if n == 0 {
            assert(srt.len() == srt.to_multiset().len());
            assert(v@ =~= srt);
        } else {
            assert(v@.subrange(0, n as int) =~= v@);
            lemma_sorted_unique(v@, srt, key_le());
        }
    }
}

/// Sorting keeps every key inside its domain bound.
pub proof fn lemma_sort_preserves_bound(s: Seq<u32>, b: u32)
    requires
        forall|i: int| 0 <= i < s.len() ==> s[i] < b,
    ensures
        s.sort_by(key_le()).len() == s.len(),
        forall|i: int| 0 <= i < s.len() ==> s.sort_by(key_le())[i] < b,
{
    lemma_key_le_total();
    s.lemma_sort_by_ensures(key_le());
    let t = s.sort_by(key_le());
    s.to_multiset_ensures();
    t.to_multiset_ensures();
    assert(s.to_multiset().len() == t.to_multiset().len());
    assert forall|i: int| 0 <= i < s.len() implies t[i] < b by {
        assert(t.contains(t[i]));
        assert(t.to_multiset().count(t[i]) > 0);
        assert(s.to_multiset().count(t[i]) > 0);
        assert(s.contains(t[i]));
        let k = choose|k: int| 0 <= k < s.len() && s[k] == t[i];
        assert(s[k] < b);
    };
}

} // verus!
