//! Sequences of key/value pairs.
//!
//! Both the per-VDB engine mapping and the collection of VDBs themselves are
//! modelled as sequences of pairs whose first component acts as a key.  The
//! definitions here say what it means for such a sequence to carry a key, where
//! a key first occurs, and when all keys are distinct.

use vstd::prelude::*;

verus! {

/// True when some entry of `s` carries the key `k`.
pub open spec fn seq_has_key<K, V>(s: Seq<(K, V)>, k: K) -> bool {
    exists|i: int| 0 <= i < s.len() && s[i].0 == k
}

/// Index of the first entry of `s` carrying the key `k`, or -1 when `k` is
/// absent.
pub open spec fn first_key_index<K, V>(s: Seq<(K, V)>, k: K) -> int
    decreases s.len(),
{
    if s.len() == 0 {
        -1
    } else if s[0].0 == k {
        0
    } else {
        let r = first_key_index(s.subrange(1, s.len() as int), k);
        if r == -1 {
            -1
        } else {
            1 + r
        }
    }
}

/// Value carried by the first entry of `s` whose key is `k`.
pub open spec fn key_value<K, V>(s: Seq<(K, V)>, k: K) -> V {
    s[first_key_index(s, k)].1
}

/// No two entries of `s` carry the same key.
pub open spec fn unique_keys<K, V>(s: Seq<(K, V)>) -> bool {
    forall|i: int, j: int| 0 <= i < j < s.len() ==> s[i].0 != s[j].0
}

/// `first_key_index` finds exactly the keys that `seq_has_key` says are there,
/// and it finds the first occurrence.
pub proof fn lemma_first_key_index<K, V>(s: Seq<(K, V)>, k: K)
    ensures
        seq_has_key(s, k) <==> first_key_index(s, k) != -1,
        seq_has_key(s, k) ==> {
            let r = first_key_index(s, k);
            &&& 0 <= r < s.len()
            &&& s[r].0 == k
            &&& forall|j: int| 0 <= j < r ==> s[j].0 != k
        },
    decreases s.len(),
{
    if s.len() == 0 {
    } else if s[0].0 == k {
        assert(seq_has_key(s, k));
    } else {
        let t = s.subrange(1, s.len() as int);
        lemma_first_key_index(t, k);
        assert forall|i: int| 0 <= i < s.len() && s[i].0 == k implies seq_has_key(t, k) by {
            assert(t[i - 1] == s[i]);
        }
        if seq_has_key(t, k) {
            let rt = first_key_index(t, k);
            assert(s[rt + 1] == t[rt]);
            assert(seq_has_key(s, k));
            assert forall|j: int| 0 <= j < rt + 1 implies s[j].0 != k by {
                if j >= 1 {
                    assert(t[j - 1] == s[j]);
                }
            }
        } else {
            assert(!seq_has_key(s, k));
        }
    }
}

} // verus!
