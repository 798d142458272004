//! Association lists keyed by character sequences: the shared model of the
//! route table and the response cache. A list is a sequence of key–value
//! pairs; `find_key` gives the first position of a key, and a list with
//! distinct keys denotes a finite map.

use vstd::prelude::*;

verus! {

/// First position whose key is `k`, or `-1` if no entry has that key.
pub open spec fn find_key<V>(s: Seq<(Seq<char>, V)>, k: Seq<char>) -> int
    decreases s.len(),
{
    if s.len() == 0 {
        -1
    } else if s[0].0 == k {
        0
    } else {
        let r = find_key(s.skip(1), k);
        if r < 0 {
            -1
        } else {
            1 + r
        }
    }
}

/// Whether some entry has key `k`.
pub open spec fn has_key<V>(s: Seq<(Seq<char>, V)>, k: Seq<char>) -> bool {
    find_key(s, k) >= 0
}

/// No two entries share a key.
pub open spec fn distinct_keys<V>(s: Seq<(Seq<char>, V)>) -> bool {
    forall|i: int, j: int| 0 <= i < j < s.len() ==> (#[trigger] s[i]).0 != (#[trigger] s[j]).0
}

/// The finite map the list denotes: each key maps to the value at its first
/// position.
pub open spec fn map_of<V>(s: Seq<(Seq<char>, V)>) -> Map<Seq<char>, V> {
    Map::new(|k: Seq<char>| has_key(s, k), |k: Seq<char>| s[find_key(s, k)].1)
}

pub proof fn lemma_find_key<V>(s: Seq<(Seq<char>, V)>, k: Seq<char>)
    ensures
        has_key(s, k) ==> find_key(s, k) < s.len() && s[find_key(s, k)].0 == k,
        !has_key(s, k) ==> forall|i: int| 0 <= i < s.len() ==> (#[trigger] s[i]).0 != k,
        forall|i: int| 0 <= i < find_key(s, k) ==> (#[trigger] s[i]).0 != k,
    decreases s.len(),
{
    if s.len() == 0 {
    } else if s[0].0 == k {
    } else {
        lemma_find_key(s.skip(1), k);
        if !has_key(s, k) {
            assert forall|i: int| 0 <= i < s.len() implies (#[trigger] s[i]).0 != k by {
                if i >= 1 {
                    assert(s[i] == s.skip(1)[i - 1]);
                }
            }
        } else {
            assert(s[find_key(s, k)] == s.skip(1)[find_key(s.skip(1), k)]);
            assert forall|i: int| 0 <= i < find_key(s, k) implies (#[trigger] s[i]).0 != k by {
                if i >= 1 {
                    assert(s[i] == s.skip(1)[i - 1]);
                }
            }
        }
    }
}

/// A position whose key is `k` pins `find_key` down, once no earlier
/// position has that key.
pub proof fn lemma_find_key_at<V>(s: Seq<(Seq<char>, V)>, k: Seq<char>, i: int)
    requires
        0 <= i < s.len(),
        s[i].0 == k,
        forall|j: int| 0 <= j < i ==> (#[trigger] s[j]).0 != k,
    ensures
        find_key(s, k) == i,
{
    lemma_find_key(s, k);
    if find_key(s, k) < 0 {
        assert(s[i].0 != k);
    } else if find_key(s, k) < i {
        assert(s[find_key(s, k)].0 != k);
    } else if find_key(s, k) > i {
        assert(s[i].0 != k);
    }
}

} // verus!
