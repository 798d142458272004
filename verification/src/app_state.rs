//! The route table — the authoritative mapping from normalized route pattern
//! to the locator of its backing configuration file — and the locator types
//! it stores. Patterns are unique keys: a pattern declared again overwrites
//! the entry it had, in load order, last wins.

use vstd::prelude::*;
use crate::kvlist::distinct_keys;
use crate::kvlist::find_key;
use crate::kvlist::has_key;
use crate::kvlist::lemma_find_key;
use crate::kvlist::lemma_find_key_at;
use crate::kvlist::map_of;

verus! {

/// The type of response backing a route.
#[derive(Debug, Clone)]
pub enum ResponseFileType {
    /// A Swagger document.
    Swagger,
    /// A JSON configuration file at the given path.
    Json(String),
    /// A YAML configuration file at the given path.
    Yaml(String),
    /// A fixed response with no backing file.
    StaticResponse,
}

/// The model of a response file type: the backing path as a character
/// sequence.
pub enum FileTypeModel {
    Swagger,
    Json(Seq<char>),
    Yaml(Seq<char>),
    StaticResponse,
}

impl ResponseFileType {
    pub open spec fn model(&self) -> FileTypeModel {
        match self {
            ResponseFileType::Swagger => FileTypeModel::Swagger,
            ResponseFileType::Json(p) => FileTypeModel::Json(p@),
            ResponseFileType::Yaml(p) => FileTypeModel::Yaml(p@),
            ResponseFileType::StaticResponse => FileTypeModel::StaticResponse,
        }
    }
}

/// What the route table stores for one pattern.
#[derive(Debug, Clone)]
pub struct RequestHandlingConfig {
    /// The type of response file backing the pattern.
    pub response_file_type: ResponseFileType,
}

impl RequestHandlingConfig {
    pub open spec fn model(&self) -> FileTypeModel {
        self.response_file_type.model()
    }

    pub fn new(response_file_type: ResponseFileType) -> (r: RequestHandlingConfig)
        ensures
            r.response_file_type == response_file_type,
    {
        RequestHandlingConfig { response_file_type }
    }
}

/// The authoritative mapping from normalized route pattern to the locator of
/// its backing file.
pub struct RouteTable {
    entries: Vec<(String, RequestHandlingConfig)>,
}

impl RouteTable {
    /// The entries in table order, each as its pattern and locator model.
    pub closed spec fn seq_view(&self) -> Seq<(Seq<char>, FileTypeModel)> {
        self.entries@.map_values(|e: (String, RequestHandlingConfig)| (e.0@, e.1.model()))
    }

    /// The patterns in table order.
    pub open spec fn keys_view(&self) -> Seq<Seq<char>> {
        self.seq_view().map_values(|e: (Seq<char>, FileTypeModel)| e.0)
    }

    /// The mapping the table denotes.
    pub open spec fn map_view(&self) -> Map<Seq<char>, FileTypeModel> {
        map_of(self.seq_view())
    }

    /// Patterns are unique keys.
    pub closed spec fn wf(&self) -> bool {
        distinct_keys(self.seq_view())
    }

    /// The empty table.
    pub fn new() -> (t: RouteTable)
        ensures
            t.wf(),
            t.seq_view() == Seq::<(Seq<char>, FileTypeModel)>::empty(),
            t.map_view() == Map::<Seq<char>, FileTypeModel>::empty(),
    {
        let t = RouteTable { entries: Vec::new() };
        proof {
            assert(t.seq_view() =~= Seq::<(Seq<char>, FileTypeModel)>::empty());
            assert(t.map_view() =~= Map::<Seq<char>, FileTypeModel>::empty());
        }
        t
    }

    /// How many patterns the table holds.
    pub fn len(&self) -> (n: usize)
        ensures
            n == self.seq_view().len(),
    {
        self.entries.len()
    }

    /// The pattern at position `i`.
    pub fn key_at(&self, i: usize) -> (k: &String)
        requires
            i < self.seq_view().len(),
        ensures
            k@ == self.seq_view()[i as int].0,
    {
        proof {
            assert(self.seq_view()[i as int] == (self.entries@[i as int].0@,
                self.entries@[i as int].1.model()));
        }
        &self.entries[i].0
    }

    /// The locator at position `i`.
    pub fn locator_at(&self, i: usize) -> (c: &RequestHandlingConfig)
        requires
            i < self.seq_view().len(),
        ensures
            c.model() == self.seq_view()[i as int].1,
    {
        proof {
            assert(self.seq_view()[i as int] == (self.entries@[i as int].0@,
                self.entries@[i as int].1.model()));
        }
        &self.entries[i].1
    }

    /// Position of `key` in the table, or the length if absent.
    fn position_of(&self, key: &String) -> (p: usize)
        ensures
            p <= self.seq_view().len(),
            p == self.seq_view().len() ==> !has_key(self.seq_view(), key@),
            p < self.seq_view().len() ==> p == find_key(self.seq_view(), key@),
    {
        let ghost s = self.seq_view();
        let n: usize = self.entries.len();
        let mut i: usize = 0;
        while i < n
            invariant
                s == self.seq_view(),
                n == self.entries@.len(),
                n == s.len(),
                i <= n,
                forall|j: int| 0 <= j < i ==> (#[trigger] s[j]).0 != key@,
            decreases n - i,
        {
            proof {
                assert(s[i as int] == (self.entries@[i as int].0@,
                    self.entries@[i as int].1.model()));
            }
            if self.entries[i].0 == *key {
                proof {
                    lemma_find_key_at(s, key@, i as int);
                }
                return i;
            }
            i = i + 1;
        }
        proof {
            lemma_find_key(s, key@);
            if has_key(s, key@) {
                assert(s[find_key(s, key@)].0 != key@);
            }
        }
        n
    }

    /// Stores `config` under `key`. A pattern already present is overwritten
    /// in place; a new pattern is appended. The denoted mapping gains exactly
    /// this association.
    pub fn insert(&mut self, key: String, config: RequestHandlingConfig)
        requires
            old(self).wf(),
        ensures
            final(self).wf(),
            final(self).map_view() == old(self).map_view().insert(key@, config.model()),
            ({
                let s = old(self).seq_view();
                let m = (key@, config.model());
                if has_key(s, key@) {
                    final(self).seq_view() == s.update(find_key(s, key@), m)
                } else {
                    final(self).seq_view() == s.push(m)
                }
            }),
    {
        let ghost s = self.seq_view();
        let ghost m = (key@, config.model());
        let p = self.position_of(&key);
        proof {
            lemma_find_key(s, key@);
        }
        if p < self.entries.len() {
            self.entries.set(p, (key, config));
            proof {
                assert(self.seq_view() =~= s.update(p as int, m));
                let t = self.seq_view();
                assert forall|j: int| 0 <= j < s.len() implies (#[trigger] t[j]).0 == s[j].0 by {
                    if j != p as int {
                        assert(t[j] == s[j]);
                    }
                }
                assert(distinct_keys(t));
                assert forall|k: Seq<char>| true implies #[trigger] has_key(t, k) == (has_key(s, k)
                    || k == key@) && (has_key(t, k) ==> t[find_key(t, k)].1 == map_of(s).insert(
                    key@,
                    m.1,
                )[k]) by {
                    lemma_find_key(s, k);
                    lemma_find_key(t, k);
                    if has_key(s, k) {
                        let i = find_key(s, k);
                        assert(t[i].0 == k);
                        assert forall|j: int| 0 <= j < i implies (#[trigger] t[j]).0 != k by {
                            assert(t[j].0 == s[j].0);
                        }
                        lemma_find_key_at(t, k, i);
                        if k == key@ {
                            assert(i == p as int);
                            assert(t[i].1 == m.1);
                        } else {
                            assert(i != p as int);
                            assert(t[i] == s[i]);
                        }
                    } else {
                        assert(k != key@);
                        if has_key(t, k) {
                            assert(t[find_key(t, k)].0 == k);
                            assert(s[find_key(t, k)].0 == k);
                        }
                    }
                }
                assert(self.map_view() =~= map_of(s).insert(key@, m.1));
            }
        } else {
            self.entries.push((key, config));
            proof {
                assert(self.seq_view() =~= s.push(m));
                let t = self.seq_view();
                assert forall|i: int, j: int| 0 <= i < j < t.len() implies (#[trigger] t[i]).0 != (
                #[trigger] t[j]).0 by {
                    if j < s.len() {
                        assert(t[i] == s[i] && t[j] == s[j]);
                    } else {
                        assert(t[j] == m);
                        assert(t[i] == s[i]);
                        assert(s[i].0 != key@);
                    }
                }
                assert forall|k: Seq<char>| true implies #[trigger] has_key(t, k) == (has_key(s, k)
                    || k == key@) && (has_key(t, k) ==> t[find_key(t, k)].1 == map_of(s).insert(
                    key@,
                    m.1,
                )[k]) by {
                    lemma_find_key(s, k);
                    lemma_find_key(t, k);
                    if has_key(s, k) {
                        let i = find_key(s, k);
                        assert(t[i].0 == k);
                        assert forall|j: int| 0 <= j < i implies (#[trigger] t[j]).0 != k by {
                            assert(t[j] == s[j]);
                        }
                        lemma_find_key_at(t, k, i);
                        assert(k != key@);
                        assert(t[i] == s[i]);
                    } else if k == key@ {
                        assert(t[s.len() as int].0 == k);
                        assert forall|j: int| 0 <= j < s.len() implies (#[trigger] t[j]).0 != k by {
                            assert(t[j] == s[j]);
                        }
                        lemma_find_key_at(t, k, s.len() as int);
                        assert(t[find_key(t, k)].1 == m.1);
                    } else {
                        if has_key(t, k) {
                            let i = find_key(t, k);
                            assert(t[i].0 == k);
                            if i < s.len() {
                                assert(s[i].0 == k);
                            }
                        }
                    }
                }
                assert(self.map_view() =~= map_of(s).insert(key@, m.1));
            }
        }
    }

    /// Merges `other` into this table, inserting each of its entries: a
    /// pattern present in both takes `other`'s locator, and every other
    /// entry is kept.
    pub fn merge(&mut self, other: RouteTable)
        requires
            old(self).wf(),
            other.wf(),
        ensures
            final(self).wf(),
            final(self).map_view() == old(self).map_view().union_prefer_right(other.map_view()),
    {
        let mut o = other;
        proof {
            assert(old(self).map_view().union_prefer_right(map_of(o.seq_view()))
                == old(self).map_view().union_prefer_right(other.map_view()));
        }
        while o.entries.len() > 0
            invariant
                self.wf(),
                distinct_keys(o.seq_view()),
                self.map_view().union_prefer_right(map_of(o.seq_view())) == old(
                    self,
                ).map_view().union_prefer_right(other.map_view()),
            decreases o.entries.len(),
        {
            let ghost s_before = self.map_view();
            let ghost o_before = o.seq_view();
            let e = o.entries.pop().unwrap();
            proof {
                assert(o.seq_view() =~= o_before.drop_last());
                assert(o_before.last() == (e.0@, e.1.model()));
                lemma_find_key(o_before, e.0@);
                lemma_find_key(o_before.drop_last(), e.0@);
                if has_key(o_before.drop_last(), e.0@) {
                    let i = find_key(o_before.drop_last(), e.0@);
                    assert(o_before.drop_last()[i] == o_before[i]);
                    assert(o_before[i].0 != o_before.last().0);
                }
            }
            let ghost o_after = o.seq_view();
            self.insert(e.0, e.1);
            proof {
                let k = o_before.last().0;
                let v = o_before.last().1;
                assert forall|q: Seq<char>| true implies #[trigger] has_key(o_before, q) == (
                has_key(o_after, q) || q == k) && (has_key(o_before, q) ==> map_of(o_before)[q]
                    == map_of(o_after).insert(k, v)[q]) by {
                    lemma_find_key(o_before, q);
                    lemma_find_key(o_after, q);
                    if has_key(o_after, q) {
                        let i = find_key(o_after, q);
                        assert(o_before[i] == o_after[i]);
                        assert forall|j: int| 0 <= j < i implies (#[trigger] o_before[j]).0
                            != q by {
                            assert(o_before[j] == o_after[j]);
                        }
                        lemma_find_key_at(o_before, q, i);
                        if q == k {
                            assert(o_before[i].0 == o_before.last().0);
                            assert(i < o_before.len() - 1);
                        } else {
                            assert(map_of(o_before)[q] == o_after[i].1);
                        }
                    } else if q == k {
                        assert(o_before[o_before.len() - 1].0 == q);
                        assert forall|j: int| 0 <= j < o_before.len() - 1 implies (
                        #[trigger] o_before[j]).0 != q by {
                            assert(o_before[j] == o_after[j]);
                        }
                        lemma_find_key_at(o_before, q, o_before.len() - 1);
                    } else {
                        if has_key(o_before, q) {
                            let i = find_key(o_before, q);
                            assert(o_before[i].0 == q);
                            if i < o_before.len() - 1 {
                                assert(o_after[i].0 == q);
                            }
                        }
                    }
                }
                assert(map_of(o_before) =~= map_of(o_after).insert(k, v));
                assert(self.map_view() =~= s_before.insert(k, v));
                assert(self.map_view().union_prefer_right(map_of(o_after))
                    =~= s_before.union_prefer_right(map_of(o_before)));
            }
        }
        proof {
            assert(map_of(o.seq_view()) =~= Map::<Seq<char>, FileTypeModel>::empty());
            assert(self.map_view().union_prefer_right(Map::<Seq<char>, FileTypeModel>::empty())
                =~= self.map_view());
        }
    }
}

} // verus!
