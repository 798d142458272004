//! A bounded least-recently-used store from route pattern to its parsed
//! configuration. Entries are modelled as a sequence in recency order, most
//! recently used first: `get` moves the entry it finds to the front, `insert`
//! places the new entry at the front and evicts the last entry when the store
//! is at capacity, and `invalidate` clears everything.

use vstd::prelude::*;
use crate::kvlist::find_key;
use crate::kvlist::has_key;
use crate::kvlist::lemma_find_key;
use crate::request::RouteConfigModel;
use crate::request::RouteConfiguration;

verus! {

/// The bounded least-recently-used configuration store.
pub struct Cache {
    entries: Vec<(String, RouteConfiguration)>,
    capacity: usize,
}

impl Cache {
    /// The stored entries, most recently used first, each as its key and the
    /// model of its configuration.
    pub closed spec fn entries_view(&self) -> Seq<(Seq<char>, RouteConfigModel)> {
        self.entries@.map_values(|e: (String, RouteConfiguration)| (e.0@, e.1.model()))
    }

    /// The fixed capacity the store was built with.
    pub closed spec fn capacity_spec(&self) -> int {
        self.capacity as int
    }

    /// Always at least one slot, never over capacity, and keys distinct.
    pub closed spec fn wf(&self) -> bool {
        &&& self.capacity >= 1
        &&& self.entries@.len() <= self.capacity
        &&& forall|i: int, j: int|
            0 <= i < j < self.entries@.len() ==> (#[trigger] self.entries@[i]).0@ != (
            #[trigger] self.entries@[j]).0@
    }

    /// An empty store of the given capacity.
    pub fn new(capacity: usize) -> (c: Cache)
        requires
            capacity >= 1,
        ensures
            c.wf(),
            c.capacity_spec() == capacity,
            c.entries_view() == Seq::<(Seq<char>, RouteConfigModel)>::empty(),
    {
        let c = Cache { entries: Vec::new(), capacity };
        proof {
            assert(c.entries_view() =~= Seq::<(Seq<char>, RouteConfigModel)>::empty());
        }
        c
    }

    /// Position of `key` in the store, or the length if absent.
    fn position_of(&self, key: &String) -> (p: usize)
        ensures
            p <= self.entries_view().len(),
            p == self.entries_view().len() ==> !has_key(self.entries_view(), key@),
            p < self.entries_view().len() ==> p == find_key(self.entries_view(), key@),
    {
        let ghost s = self.entries_view();
        let n: usize = self.entries.len();
        let mut i: usize = 0;
        while i < n
            invariant
                s == self.entries_view(),
                n == self.entries@.len(),
                n == s.len(),
                i <= n,
                forall|j: int| 0 <= j < i ==> (#[trigger] s[j]).0 != key@,
            decreases n - i,
        {
            proof {
                assert(s[i as int] == (self.entries@[i as int].0@, self.entries@[i as int].1.model()));
            }
            if self.entries[i].0 == *key {
                proof {
                    lemma_find_key(s, key@);
                    if find_key(s, key@) < i as int {
                        assert(s[find_key(s, key@)].0 != key@);
                        assert(false);
                    }
                    if find_key(s, key@) > i as int {
                        assert(false);
                    }
                    if find_key(s, key@) < 0 {
                        assert(false);
                    }
                }
                return i;
            }
            i = i + 1;
        }
        proof {
            lemma_find_key(s, key@);
            if find_key(s, key@) >= 0 {
                assert(s[find_key(s, key@)].0 != key@);
                assert(false);
            }
        }
        n
    }

    /// Looks `key` up. A hit hands back the stored configuration and marks
    /// the entry most recently used; a miss changes nothing.
    pub fn get(&mut self, key: String) -> (r: Option<RouteConfiguration>)
        requires
            old(self).wf(),
        ensures
            final(self).wf(),
            final(self).capacity_spec() == old(self).capacity_spec(),
            ({
                let s = old(self).entries_view();
                if has_key(s, key@) {
                    &&& r is Some
                    &&& (r matches Some(c) ==> c.model() == s[find_key(s, key@)].1)
                    &&& final(self).entries_view() == seq![s[find_key(s, key@)]] + s.remove(
                        find_key(s, key@),
                    )
                } else {
                    &&& r is None
                    &&& final(self).entries_view() == s
                }
            }),
    {
        let ghost s = self.entries_view();
        let p = self.position_of(&key);
        if p == self.entries.len() {
            return None;
        }
        proof {
            lemma_find_key(s, key@);
        }
        let entry = self.entries.remove(p);
        let config = entry.1.clone();
        self.entries.insert(0, entry);
        proof {
            assert(self.entries@ =~= seq![old(self).entries@[p as int]] + old(
                self,
            ).entries@.remove(p as int));
            assert(self.entries_view() =~= seq![s[p as int]] + s.remove(p as int));
            assert forall|i: int, j: int|
                0 <= i < j < self.entries@.len() implies (#[trigger] self.entries@[i]).0@ != (
            #[trigger] self.entries@[j]).0@ by {
                let o = old(self).entries@;
                if i == 0 {
                    if j <= p as int {
                        assert(self.entries@[j] == o[j - 1]);
                    } else {
                        assert(self.entries@[j] == o[j]);
                    }
                } else {
                    let oi = if i <= p as int { i - 1 } else { i };
                    let oj = if j <= p as int { j - 1 } else { j };
                    assert(self.entries@[i] == o[oi]);
                    assert(self.entries@[j] == o[oj]);
                }
            }
        }
        Some(config)
    }

    /// Stores `value` under `key`, as most recently used. A key already
    /// present is overwritten in place of its old entry; a new key at
    /// capacity evicts the least recently used entry.
    pub fn insert(&mut self, key: String, value: RouteConfiguration)
        requires
            old(self).wf(),
        ensures
            final(self).wf(),
            final(self).capacity_spec() == old(self).capacity_spec(),
            ({
                let s = old(self).entries_view();
                let m = (key@, value.model());
                if has_key(s, key@) {
                    final(self).entries_view() == seq![m] + s.remove(find_key(s, key@))
                } else if s.len() < old(self).capacity_spec() {
                    final(self).entries_view() == seq![m] + s
                } else {
                    final(self).entries_view() == seq![m] + s.drop_last()
                }
            }),
    {
        let ghost s = self.entries_view();
        let ghost m = (key@, value.model());
        let p = self.position_of(&key);
        proof {
            lemma_find_key(s, key@);
        }
        if p < self.entries.len() {
            let _ = self.entries.remove(p);
            proof {
                assert(self.entries_view() =~= s.remove(p as int));
            }
        } else if self.entries.len() == self.capacity {
            let last = self.entries.len() - 1;
            let _ = self.entries.remove(last);
            proof {
                assert(self.entries_view() =~= s.drop_last());
            }
        }
        let ghost t = self.entries_view();
        let ghost before = self.entries@;
        self.entries.insert(0, (key, value));
        proof {
            assert(self.entries@ =~= seq![(key, value)] + before);
            assert(self.entries_view() =~= seq![m] + t);
            assert forall|i: int, j: int|
                0 <= i < j < self.entries@.len() implies (#[trigger] self.entries@[i]).0@ != (
            #[trigger] self.entries@[j]).0@ by {
                if i == 0 {
                    assert(self.entries@[j] == before[j - 1]);
                    assert(self.entries_view()[j] == t[j - 1]);
                    if has_key(s, key@) {
                        assert(t =~= s.remove(p as int));
                        if j - 1 < p as int {
                            assert(t[j - 1] == s[j - 1]);
                        } else {
                            assert(t[j - 1] == s[j]);
                        }
                    } else {
                        assert(t[j - 1] == s[j - 1]);
                    }
                } else {
                    assert(self.entries@[i] == before[i - 1]);
                    assert(self.entries@[j] == before[j - 1]);
                }
            }
        }
    }

    /// The number of entries held.
    pub fn len(&self) -> (n: usize)
        ensures
            n == self.entries_view().len(),
    {
        self.entries.len()
    }

    /// Drops every entry; capacity is unchanged.
    pub fn invalidate(&mut self)
        requires
            old(self).wf(),
        ensures
            final(self).wf(),
            final(self).capacity_spec() == old(self).capacity_spec(),
            final(self).entries_view() == Seq::<(Seq<char>, RouteConfigModel)>::empty(),
    {
        self.entries.clear();
        proof {
            assert(self.entries_view() =~= Seq::<(Seq<char>, RouteConfigModel)>::empty());
        }
    }
}

/// Inserting one more, distinct, key into a store that stands at capacity
/// evicts exactly the least recently used entry: its key is no longer
/// present afterwards, so a later lookup of it misses, while the new entry
/// stands in front of all the others.
pub proof fn lemma_lru_eviction(
    s: Seq<(Seq<char>, RouteConfigModel)>,
    m: (Seq<char>, RouteConfigModel),
)
    requires
        s.len() >= 1,
        forall|i: int, j: int| 0 <= i < j < s.len() ==> (#[trigger] s[i]).0 != (#[trigger] s[j]).0,
        !has_key(s, m.0),
    ensures
        !has_key(seq![m] + s.drop_last(), s.last().0),
        (seq![m] + s.drop_last())[0] == m,
        (seq![m] + s.drop_last()).len() == s.len(),
{
    let t = seq![m] + s.drop_last();
    lemma_find_key(s, m.0);
    lemma_find_key(t, s.last().0);
    if has_key(t, s.last().0) {
        let i = find_key(t, s.last().0);
        assert(t[i].0 == s.last().0);
        if i == 0 {
            assert(m.0 == s.last().0);
            assert(s[s.len() - 1].0 != m.0);
        } else {
            assert(t[i] == s.drop_last()[i - 1]);
            assert(s.drop_last()[i - 1] == s[i - 1]);
            assert(s[i - 1].0 != s[s.len() - 1].0);
        }
    }
}

} // verus!
