//! The persistent image-dimension cache: a map from a file path to the
//! probed `(width, height)`, with a bypass flag that turns both reads and
//! writes off without touching the stored snapshot.

use vstd::prelude::*;

use crate::text::str_eq;

verus! {

/// The map described by a list of `(path, dimensions)` pairs; a later pair
/// with the same path wins.
pub open spec fn map_of(s: Seq<(String, (u32, u32))>) -> Map<Seq<char>, (u32, u32)>
    decreases s.len(),
{
    if s.len() == 0 {
        Map::empty()
    } else {
        map_of(s.drop_last()).insert(s.last().0@, s.last().1)
    }
}

/// Whether a pair list names each path at most once.
pub open spec fn unique_keys(s: Seq<(String, (u32, u32))>) -> bool {
    forall|i: int, j: int| 0 <= i < j < s.len() ==> s[i].0@ != s[j].0@
}

/// Every listed pair is in the map; with unique paths, at its listed value.
pub proof fn lemma_map_of_entry(s: Seq<(String, (u32, u32))>, i: int)
    requires
        0 <= i < s.len(),
        forall|j: int| i < j < s.len() ==> s[j].0@ != s[i].0@,
    ensures
        map_of(s).contains_key(s[i].0@),
        map_of(s)[s[i].0@] == s[i].1,
    decreases s.len(),
{
    if i == s.len() - 1 {
    } else {
        assert(s.drop_last()[i] == s[i]);
        lemma_map_of_entry(s.drop_last(), i);
    }
}

/// The map holds no path that the list does not name.
pub proof fn lemma_map_of_dom(s: Seq<(String, (u32, u32))>, k: Seq<char>)
    requires
        map_of(s).contains_key(k),
    ensures
        exists|i: int| 0 <= i < s.len() && s[i].0@ == k,
    decreases s.len(),
{
    if s.len() > 0 {
        if s.last().0@ == k {
            assert(s[s.len() - 1].0@ == k);
        } else {
            lemma_map_of_dom(s.drop_last(), k);
            let i = choose|i: int| 0 <= i < s.drop_last().len() && s.drop_last()[i].0@ == k;
            assert(s[i].0@ == k);
        }
    }
}

/// Replacing the pair at `i` by one with the same path is a map insert,
/// provided no later pair shadows that path.
proof fn lemma_map_of_update(s: Seq<(String, (u32, u32))>, i: int, p: (String, (u32, u32)))
    requires
        0 <= i < s.len(),
        p.0@ == s[i].0@,
        forall|j: int| i < j < s.len() ==> s[j].0@ != s[i].0@,
    ensures
        map_of(s.update(i, p)) == map_of(s).insert(p.0@, p.1),
    decreases s.len(),
{
    let k = p.0@;
    if i == s.len() - 1 {
        assert(s.update(i, p).drop_last() =~= s.drop_last());
        assert(s.update(i, p).last() == p);
        assert(map_of(s.drop_last()).insert(k, s[i].1).insert(k, p.1) =~= map_of(
            s.drop_last(),
        ).insert(k, p.1));
    } else {
        assert(s.update(i, p).drop_last() =~= s.drop_last().update(i, p));
        assert(s.update(i, p).last() == s.last());
        assert(s.drop_last()[i] == s[i]);
        lemma_map_of_update(s.drop_last(), i, p);
        assert(s.last().0@ != k);
        assert(map_of(s.drop_last()).insert(k, p.1).insert(s.last().0@, s.last().1) =~= map_of(
            s.drop_last(),
        ).insert(s.last().0@, s.last().1).insert(k, p.1));
    }
}

/// The shared image-dimension cache. `ignore` is the bypass flag: while it
/// is set, lookups miss and inserts are true no-ops.
pub struct ImageCache {
    entries: Vec<(String, (u32, u32))>,
    pub ignore: bool,
}

impl ImageCache {
    /// The cached map: path characters to dimensions.
    pub closed spec fn view(&self) -> Map<Seq<char>, (u32, u32)> {
        map_of(self.entries@)
    }

    /// The bypass flag, for contracts.
    pub closed spec fn bypass(&self) -> bool {
        self.ignore
    }

    /// The representation lists each path at most once.
    pub closed spec fn wf(&self) -> bool {
        unique_keys(self.entries@)
    }

    pub fn new(ignore: bool) -> (r: Self)
        ensures
            r@ == Map::<Seq<char>, (u32, u32)>::empty(),
            r.bypass() == ignore,
            r.wf(),
    {
        Self { entries: Vec::new(), ignore }
    }

    /// Rebuilds a cache from a stored snapshot's pairs; a later pair with the
    /// same path wins, as when the snapshot was a JSON object. Under bypass
    /// the snapshot is disregarded and the cache starts empty.
    pub fn from_entries(list: Vec<(String, (u32, u32))>, ignore: bool) -> (r: Self)
        ensures
            r.bypass() == ignore,
            r.wf(),
            ignore ==> r@ == Map::<Seq<char>, (u32, u32)>::empty(),
            !ignore ==> r@ == map_of(list@),
    {
        let mut cache = Self::new(ignore);
        if ignore {
            return cache;
        }
        let n = list.len();
        let mut i: usize = 0;
        while i < n
            invariant
                i <= n,
                n == list@.len(),
                cache.wf(),
                !cache.ignore,
                cache@ == map_of(list@.take(i as int)),
            decreases n - i,
        {
            let (path, dims) = &list[i];
            assert(list@.take(i + 1).drop_last() =~= list@.take(i as int));
            assert(list@.take(i + 1).last() == list@[i as int]);
            cache.insert(path.clone(), *dims);
            i = i + 1;
        }
        assert(list@.take(n as int) =~= list@);
        cache
    }

    /// Records the dimensions for a path; under bypass this changes nothing
    /// at all.
    pub fn insert(&mut self, key: String, value: (u32, u32))
        requires
            old(self).wf(),
        ensures
            final(self).wf(),
            final(self).bypass() == old(self).bypass(),
            old(self).bypass() ==> final(self)@ == old(self)@,
            !old(self).bypass() ==> final(self)@ == old(self)@.insert(key@, value),
    {
        if self.ignore {
            return;
        }
        let n = self.entries.len();
        let mut i: usize = 0;
        while i < n
            invariant
                i <= n,
                n == self.entries@.len(),
                self == old(self),
                old(self).wf(),
                !old(self).bypass(),
                forall|j: int| 0 <= j < i ==> self.entries@[j].0@ != key@,
            decreases n - i,
        {
            if str_eq(self.entries[i].0.as_str(), key.as_str()) {
                proof {
                    lemma_map_of_update(self.entries@, i as int, (key, value));
                }
                self.entries[i] = (key, value);
                assert(final(self).wf()) by {
                    assert(forall|a: int, b: int|
                        0 <= a < b < self.entries@.len() ==> self.entries@[a].0@
                            != self.entries@[b].0@);
                }
                return;
            }
            i = i + 1;
        }
        assert(forall|j: int| 0 <= j < n ==> self.entries@[j].0@ != key@);
        proof {
            assert(self.entries@.push((key, value)).drop_last() =~= self.entries@);
        }
        self.entries.push((key, value));
    }

    /// Looks a path up; under bypass every lookup misses.
    pub fn get(&self, key: &String) -> (r: Option<(u32, u32)>)
        requires
            self.wf(),
        ensures
            self.bypass() ==> r is None,
            !self.bypass() ==> r == if self@.contains_key(key@) {
                Some(self@[key@])
            } else {
                None::<(u32, u32)>
            },
    {
        if self.ignore {
            return None;
        }
        let n = self.entries.len();
        let mut i: usize = 0;
        while i < n
            invariant
                i <= n,
                n == self.entries@.len(),
                self.wf(),
                !self.bypass(),
                forall|j: int| 0 <= j < i ==> self.entries@[j].0@ != key@,
            decreases n - i,
        {
            if str_eq(self.entries[i].0.as_str(), key.as_str()) {
                proof {
                    lemma_map_of_entry(self.entries@, i as int);
                }
                return Some(self.entries[i].1);
            }
            i = i + 1;
        }
        proof {
            if self@.contains_key(key@) {
                lemma_map_of_dom(self.entries@, key@);
            }
        }
        None
    }

    /// The stored pairs, for writing a snapshot: each path at most once, and
    /// exactly the pairs of the cached map.
    pub fn entries(&self) -> (r: &Vec<(String, (u32, u32))>)
        requires
            self.wf(),
        ensures
            unique_keys(r@),
            map_of(r@) == self@,
    {
        &self.entries
    }
}

/// Law: when two workers race to record the same probe result for the same
/// path, the writes are idempotent — the cache ends up with exactly the one
/// entry either order would have produced.
pub proof fn lemma_racing_inserts_are_benign(
    m: Map<Seq<char>, (u32, u32)>,
    k: Seq<char>,
    v: (u32, u32),
)
    ensures
        m.insert(k, v).insert(k, v) == m.insert(k, v),
        m.insert(k, v).dom() == m.dom().insert(k),
        m.insert(k, v)[k] == v,
{
    assert(m.insert(k, v).insert(k, v) =~= m.insert(k, v));
    assert(m.insert(k, v).dom() =~= m.dom().insert(k));
}

} // verus!
