//! Persisted usage history: launch counts keyed by application identity.
//! The store itself is read and written by the host program; this module
//! owns the in-memory map and the increment operation.

use vstd::prelude::*;

verus! {

/// One persisted usage record: how often an application was launched.
pub struct HistoryData {
    pub usage_count: u32,
}

/// The usage history: launch counts keyed by application identity.
/// Later pairs win, and a well-formed map holds each key once.
pub struct HistoryMap {
    counts: Vec<(String, HistoryData)>,
}

/// The map a pair sequence denotes: inserted left to right, so a later
/// pair overrides an earlier one with the same key.
pub open spec fn pairs_map(s: Seq<(String, HistoryData)>) -> Map<Seq<char>, u32>
    decreases s.len(),
{
    if s.len() == 0 {
        Map::empty()
    } else {
        pairs_map(s.drop_last()).insert(s.last().0@, s.last().1.usage_count)
    }
}

/// Pairwise-distinct keys.
pub open spec fn distinct_keys(s: Seq<(String, HistoryData)>) -> bool {
    forall|i: int, j: int| 0 <= i < j < s.len() ==> (#[trigger] s[i]).0@ != (#[trigger] s[j]).0@
}

/// The launch count an identity has in a history map; absent records
/// count zero.
pub open spec fn count_of(h: Map<Seq<char>, u32>, id: Seq<char>) -> u32 {
    if h.dom().contains(id) {
        h[id]
    } else {
        0u32
    }
}

impl View for HistoryMap {
    type V = Map<Seq<char>, u32>;

    closed spec fn view(&self) -> Map<Seq<char>, u32> {
        pairs_map(self.counts@)
    }
}

proof fn lemma_pairs_map_domain(s: Seq<(String, HistoryData)>)
    ensures
        forall|k: Seq<char>|
            pairs_map(s).dom().contains(k) <==> exists|i: int|
                0 <= i < s.len() && (#[trigger] s[i]).0@ == k,
    decreases s.len(),
{
    if s.len() > 0 {
        lemma_pairs_map_domain(s.drop_last());
        let d = s.drop_last();
        assert forall|k: Seq<char>| pairs_map(s).dom().contains(k) implies exists|i: int|
            0 <= i < s.len() && (#[trigger] s[i]).0@ == k by {
            if k == s.last().0@ {
                assert(s[s.len() - 1].0@ == k);
            } else {
                assert(pairs_map(d).dom().contains(k));
                let i = choose|i: int| 0 <= i < d.len() && (#[trigger] d[i]).0@ == k;
                assert(s[i] == d[i]);
                assert(s[i].0@ == k);
            }
        }
        assert forall|k: Seq<char>|
            (exists|i: int| 0 <= i < s.len() && (#[trigger] s[i]).0@ == k) implies pairs_map(
            s,
        ).dom().contains(k) by {
            let i = choose|i: int| 0 <= i < s.len() && (#[trigger] s[i]).0@ == k;
            if i < s.len() - 1 {
                assert(d[i].0@ == k);
                assert(exists|i2: int| 0 <= i2 < d.len() && (#[trigger] d[i2]).0@ == k);
                assert(pairs_map(d).dom().contains(k));
            }
        }
    }
}

proof fn lemma_pairs_map_value(s: Seq<(String, HistoryData)>, i: int)
    requires
        distinct_keys(s),
        0 <= i < s.len(),
    ensures
        pairs_map(s).dom().contains(s[i].0@),
        pairs_map(s)[s[i].0@] == s[i].1.usage_count,
    decreases s.len(),
{
    if i == s.len() - 1 {
    } else {
        assert(distinct_keys(s.drop_last()));
        assert(s.drop_last()[i] == s[i]);
        lemma_pairs_map_value(s.drop_last(), i);
        assert(s[i].0@ != s.last().0@);
    }
}

impl HistoryMap {
    /// Each identity is keyed once.
    pub closed spec fn wf(&self) -> bool {
        distinct_keys(self.counts@)
    }

    /// An empty history: no application has been launched.
    pub fn new() -> (h: HistoryMap)
        ensures
            h.wf(),
            h@ == Map::<Seq<char>, u32>::empty(),
    {
        HistoryMap { counts: Vec::new() }
    }

    /// The launch count recorded for an identity; zero when none is.
    pub fn get_count(&self, appid: &str) -> (c: u32)
        requires
            self.wf(),
        ensures
            c == count_of(self@, appid@),
    {
        let key: String = appid.to_owned();
        let n = self.counts.len();
        let mut j: usize = 0;
        while j < n
            invariant
                n == self.counts@.len(),
                j <= n,
                key@ == appid@,
                self.wf(),
                forall|l: int| 0 <= l < j ==> (#[trigger] self.counts@[l]).0@ != appid@,
            decreases n - j,
        {
            if self.counts[j].0 == key {
                proof {
                    lemma_pairs_map_value(self.counts@, j as int);
                }
                return self.counts[j].1.usage_count;
            }
            j = j + 1;
        }
        proof {
            lemma_pairs_map_domain(self.counts@);
        }
        0
    }

    /// Records a launch count for an identity, replacing any earlier
    /// record for it.
    fn put(&mut self, key: String, value: u32)
        requires
            old(self).wf(),
        ensures
            final(self).wf(),
            final(self)@ == old(self)@.insert(key@, value),
    {
        let n = self.counts.len();
        let mut j: usize = 0;
        while j < n
            invariant
                n == self.counts@.len(),
                j <= n,
                self.wf(),
                self == old(self),
                forall|l: int| 0 <= l < j ==> (#[trigger] self.counts@[l]).0@ != key@,
            decreases n - j,
        {
            if self.counts[j].0 == key {
                let ghost s0 = self.counts@;
                self.counts.set(j, (key, HistoryData { usage_count: value }));
                proof {
                    lemma_pairs_map_update(s0, j as int, self.counts@[j as int]);
                    assert(distinct_keys(self.counts@));
                }
                return ;
            }
            j = j + 1;
        }
        let ghost s0 = self.counts@;
        self.counts.push((key, HistoryData { usage_count: value }));
        proof {
            assert(self.counts@.drop_last() =~= s0);
            assert(distinct_keys(self.counts@));
        }
    }

    /// Loads a history from plain pairs, as parsed from the store; a
    /// later pair for the same identity overrides an earlier one.
    pub fn from_pairs(pairs: Vec<(String, u32)>) -> (h: HistoryMap)
        ensures
            h.wf(),
            h@ == map_of_pairs(pairs@.map_values(|p: (String, u32)| (p.0@, p.1))),
    {
        let ghost pv = pairs@.map_values(|p: (String, u32)| (p.0@, p.1));
        let mut h = HistoryMap::new();
        let n = pairs.len();
        let mut i: usize = 0;
        while i < n
            invariant
                n == pairs@.len(),
                i <= n,
                h.wf(),
                pv == pairs@.map_values(|p: (String, u32)| (p.0@, p.1)),
                h@ == map_of_pairs(pv.take(i as int)),
            decreases n - i,
        {
            let key = pairs[i].0.clone();
            let value = pairs[i].1;
            h.put(key, value);
            proof {
                assert(pv.take(i + 1).drop_last() =~= pv.take(i as int));
            }
            i = i + 1;
        }
        proof {
            assert(pv.take(n as int) =~= pv);
        }
        h
    }

    /// The recorded pairs, for persisting the history: distinct keys,
    /// denoting exactly this map.
    pub fn pairs(&self) -> (v: Vec<(String, u32)>)
        requires
            self.wf(),
        ensures
            map_of_pairs(v@.map_values(|p: (String, u32)| (p.0@, p.1))) == self@,
            forall|i: int, j: int|
                0 <= i < j < v@.len() ==> (#[trigger] v@[i]).0@ != (#[trigger] v@[j]).0@,
    {
        let mut v: Vec<(String, u32)> = Vec::new();
        let n = self.counts.len();
        let mut i: usize = 0;
        while i < n
            invariant
                n == self.counts@.len(),
                i <= n,
                v@.len() == i,
                forall|l: int|
                    0 <= l < i ==> (#[trigger] v@[l]).0@ == self.counts@[l].0@ && v@[l].1
                        == self.counts@[l].1.usage_count,
            decreases n - i,
        {
            v.push((self.counts[i].0.clone(), self.counts[i].1.usage_count));
            i = i + 1;
        }
        proof {
            lemma_map_of_pairs_agrees(
                v@.map_values(|p: (String, u32)| (p.0@, p.1)),
                self.counts@,
            );
        }
        v
    }
}

/// The map a sequence of plain pairs denotes, inserted left to right.
pub open spec fn map_of_pairs(s: Seq<(Seq<char>, u32)>) -> Map<Seq<char>, u32>
    decreases s.len(),
{
    if s.len() == 0 {
        Map::empty()
    } else {
        map_of_pairs(s.drop_last()).insert(s.last().0, s.last().1)
    }
}

proof fn lemma_map_of_pairs_agrees(pv: Seq<(Seq<char>, u32)>, s: Seq<(String, HistoryData)>)
    requires
        pv.len() == s.len(),
        forall|l: int|
            0 <= l < s.len() ==> (#[trigger] pv[l]).0 == s[l].0@ && pv[l].1
                == s[l].1.usage_count,
    ensures
        map_of_pairs(pv) == pairs_map(s),
    decreases s.len(),
{
    if s.len() > 0 {
        assert(pv.drop_last().len() == s.drop_last().len());
        lemma_map_of_pairs_agrees(pv.drop_last(), s.drop_last());
    }
}

proof fn lemma_pairs_map_update(s: Seq<(String, HistoryData)>, j: int, p: (String, HistoryData))
    requires
        distinct_keys(s),
        0 <= j < s.len(),
        p.0@ == s[j].0@,
    ensures
        pairs_map(s.update(j, p)) == pairs_map(s).insert(p.0@, p.1.usage_count),
    decreases s.len(),
{
    let t = s.update(j, p);
    if j == s.len() - 1 {
        assert(t.drop_last() =~= s.drop_last());
        assert(pairs_map(t) =~= pairs_map(s).insert(p.0@, p.1.usage_count));
    } else {
        assert(distinct_keys(s.drop_last()));
        assert(s.drop_last()[j] == s[j]);
        lemma_pairs_map_update(s.drop_last(), j, p);
        assert(t.drop_last() =~= s.drop_last().update(j, p));
        assert(t.last() == s.last());
        assert(s[j].0@ != s.last().0@);
        assert(pairs_map(t) =~= pairs_map(s).insert(p.0@, p.1.usage_count));
    }
}

/// Adds one launch of the identity to the history: its count rises by
/// one, every other record is unchanged. Persisting the new map is the
/// caller's separate step.
pub fn increment_usage(history: &mut HistoryMap, appid: &str)
    requires
        old(history).wf(),
        count_of(old(history)@, appid@) < u32::MAX,
    ensures
        final(history).wf(),
        final(history)@ == old(history)@.insert(
            appid@,
            (count_of(old(history)@, appid@) + 1) as u32,
        ),
{
    let c = history.get_count(appid);
    let key: String = appid.to_owned();
    history.put(key, c + 1);
}

} // verus!
