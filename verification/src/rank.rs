//! The ranking engine. A non-empty query ranks entries by fuzzy-match
//! score (descending; on equal score the shorter display name first); an
//! empty query ranks by usage frequency (descending; zero-usage entries
//! keep catalog order, so the sort is stable).

use vstd::prelude::*;

use fuzzy_matcher::FuzzyMatcher;

use crate::entries::DesktopEntryManager;
use crate::entries::EntryView;
use crate::entries::NormalDesktopEntry;
use crate::entries::entry_views;
use crate::history::HistoryMap;
use crate::history::count_of;

verus! {

broadcast use vstd::seq_lib::group_to_multiset_ensures;

/// Fuzzy-match score as `SkimMatcherV2` under its default configuration
/// computes it: a function of haystack and needle alone, `None` when the
/// needle does not match.
pub uninterp spec fn fuzzy_score(haystack: Seq<char>, needle: Seq<char>) -> Option<i64>;

/// Relies on `fuzzy_matcher::skim::SkimMatcherV2::fuzzy_match` (default
/// configuration): subsequence match score, higher is better, `None`
/// when the pattern does not match; deterministic in its two arguments.
#[verifier::external_body]
fn fuzzy_match_score(haystack: &str, needle: &str) -> (r: Option<i64>)
    ensures
        r == fuzzy_score(haystack@, needle@),
{
    fuzzy_matcher::skim::SkimMatcherV2::default().fuzzy_match(haystack, needle)
}

/// The searchable text of an entry: display name, comment, identity and
/// exec template, space-separated.
pub open spec fn composite_of(e: EntryView) -> Seq<char> {
    e.app_name + seq![' '] + e.comment + seq![' '] + e.appid + seq![' '] + e.exec_template
}

/// Builds the searchable text of an entry.
fn composite_string(e: &NormalDesktopEntry) -> (r: String)
    ensures
        r@ == composite_of(e@),
{
    let mut s = e.app_name.clone();
    s.append(" ");
    s.append(e.comment.as_str());
    s.append(" ");
    s.append(e.appid.as_str());
    s.append(" ");
    s.append(e.exec_template.as_str());
    proof {
        reveal_strlit(" ");
        assert(" "@ =~= seq![' ']);
        assert(s@ =~= composite_of(e@));
    }
    s
}

/// Rank order on (score, tie, payload) triples: higher score first, on
/// equal score the lower tie value first. The payload does not order.
pub open spec fn ranked_le(a: (i64, usize, usize), b: (i64, usize, usize)) -> bool {
    a.0 > b.0 || (a.0 == b.0 && a.1 <= b.1)
}

/// Sorted by rank: each earlier triple may stand before each later one.
pub open spec fn sorted_ranked(ts: Seq<(i64, usize, usize)>) -> bool {
    forall|k: int, l: int| 0 <= k < l < ts.len() ==> ranked_le(#[trigger] ts[k], #[trigger] ts[l])
}

fn ranked_le_exec(a: (i64, usize, usize), b: (i64, usize, usize)) -> (r: bool)
    ensures
        r == ranked_le(a, b),
{
    a.0 > b.0 || (a.0 == b.0 && a.1 <= b.1)
}

/// Sorts rank triples: the result is sorted by rank and a permutation of
/// the input.
pub fn sort_ranked(v: &mut Vec<(i64, usize, usize)>)
    ensures
        sorted_ranked(final(v)@),
        final(v)@.to_multiset() == old(v)@.to_multiset(),
{
    let ghost orig = v@;
    let n = v.len();
    let mut i: usize = 0;
    while i < n
        invariant
            n == v@.len(),
            i <= n,
            v@.to_multiset() == orig.to_multiset(),
            sorted_ranked(v@.take(i as int)),
        decreases n - i,
    {
        let x = v[i];
        let mut j: usize = 0;
        while j < i && ranked_le_exec(v[j], x)
            invariant
                j <= i,
                i < n,
                n == v@.len(),
                x == v@[i as int],
                forall|l: int| 0 <= l < j ==> ranked_le(#[trigger] v@[l], x),
            decreases i - j,
        {
            j = j + 1;
        }
        let ghost before = v@;
        let y = v.remove(i);
        v.insert(j, y);
        proof {
            assert(before.contains(x)) by {
                assert(before[i as int] == x);
            }
            assert(before.to_multiset().count(x) > 0);
            assert(before.remove(i as int).insert(j as int, x).to_multiset() =~= before.to_multiset());
            let w = v@;
            assert(forall|l: int| 0 <= l < j ==> w[l] == before[l]);
            assert(w[j as int] == x);
            assert(forall|l: int| j < l <= i ==> w[l] == before[l - 1]);
            let p = before.take(i as int);
            assert forall|k: int, l: int| 0 <= k < l < i + 1 implies ranked_le(
                #[trigger] w[k],
                #[trigger] w[l],
            ) by {
                if j < i {
                    assert(!ranked_le(before[j as int], x));
                    assert(ranked_le(x, before[j as int]));
                }
                if l < j {
                    assert(ranked_le(p[k], p[l]));
                } else if k < j && l == j {
                } else if k < j && l > j {
                    assert(ranked_le(p[k], p[l - 1]));
                } else if k == j && l > j {
                    if l - 1 > j {
                        assert(ranked_le(p[j as int], p[l - 1]));
                    }
                } else if k > j {
                    assert(ranked_le(p[k - 1], p[l - 1]));
                }
            }
            assert(sorted_ranked(w.take(i as int + 1)));
        }
        i = i + 1;
    }
    proof {
        assert(v@.take(n as int) =~= v@);
    }
}

/// The rank triples of the entries a query matches, in catalog order:
/// score, display-name length as the tie-break, and the entry's index.
pub open spec fn match_triples(es: Seq<EntryView>, q: Seq<char>, i: int) -> Seq<
    (i64, usize, usize),
>
    decreases es.len() - i,
{
    if i < 0 || i >= es.len() {
        Seq::empty()
    } else {
        let rest = match_triples(es, q, i + 1);
        match fuzzy_score(composite_of(es[i]), q) {
            Some(s) => seq![(s, es[i].app_name.len() as usize, i as usize)] + rest,
            None => rest,
        }
    }
}

proof fn lemma_match_triples_elems(es: Seq<EntryView>, q: Seq<char>, i: int)
    requires
        0 <= i,
        es.len() <= usize::MAX,
    ensures
        forall|t: (i64, usize, usize)|
            #[trigger] match_triples(es, q, i).contains(t) ==> i <= t.2 < es.len(),
    decreases es.len() - i,
{
    if i < es.len() {
        lemma_match_triples_elems(es, q, i + 1);
        assert forall|t: (i64, usize, usize)|
            #[trigger] match_triples(es, q, i).contains(t) implies i <= t.2 < es.len() by {
            let m = match_triples(es, q, i);
            let k = choose|k: int| 0 <= k < m.len() && m[k] == t;
            match fuzzy_score(composite_of(es[i]), q) {
                Some(s) => {
                    if k > 0 {
                        assert(match_triples(es, q, i + 1)[k - 1] == t);
                        assert(match_triples(es, q, i + 1).contains(t));
                    }
                },
                None => {
                    assert(match_triples(es, q, i + 1).contains(t));
                },
            }
        }
    }
}

/// The fuzzy-mode contract: the result is exactly the matching entries,
/// ordered by score descending with the shorter display name first on
/// equal score; no further key orders equal-rank entries.
pub open spec fn fuzzy_ranked(es: Seq<EntryView>, q: Seq<char>, rs: Seq<EntryView>) -> bool {
    exists|ts: Seq<(i64, usize, usize)>|
        {
            &&& #[trigger] ts.to_multiset() == match_triples(es, q, 0).to_multiset()
            &&& sorted_ranked(ts)
            &&& rs == ts.map_values(|t: (i64, usize, usize)| es[t.2 as int])
        }
}

impl DesktopEntryManager {
    /// Fuzzy mode: scores each entry's searchable text against the query,
    /// drops entries the query does not match, and sorts the rest by
    /// score descending, shorter display name first on equal score.
    pub fn filter_and_sort_entries(text: &str, normalized_entries: &[NormalDesktopEntry]) -> (r:
        Vec<NormalDesktopEntry>)
        ensures
            fuzzy_ranked(entry_views(normalized_entries@), text@, entry_views(r@)),
    {
        let ghost es = entry_views(normalized_entries@);
        let n = normalized_entries.len();
        let mut ts: Vec<(i64, usize, usize)> = Vec::new();
        let mut i: usize = 0;
        proof {
            assert(match_triples(es, text@, 0) =~= ts@ + match_triples(es, text@, 0));
        }
        while i < n
            invariant
                n == normalized_entries@.len(),
                es == entry_views(normalized_entries@),
                i <= n,
                match_triples(es, text@, 0) == ts@ + match_triples(es, text@, i as int),
            decreases n - i,
        {
            let e = &normalized_entries[i];
            let hay = composite_string(e);
            proof {
                assert(es[i as int] == e@);
            }
            match fuzzy_match_score(hay.as_str(), text) {
                Some(score) => {
                    let name_len = e.app_name.as_str().unicode_len();
                    proof {
                        assert(es[i as int].app_name.len() as usize == name_len);
                    }
                    ts.push((score, name_len, i));
                    proof {
                        assert(match_triples(es, text@, i as int) =~= seq![
                            (score, name_len, i)
                        ] + match_triples(es, text@, i as int + 1));
                        assert(match_triples(es, text@, 0) =~= ts@ + match_triples(
                            es,
                            text@,
                            i as int + 1,
                        ));
                    }
                },
                None => {
                    proof {
                        assert(match_triples(es, text@, i as int) == match_triples(
                            es,
                            text@,
                            i as int + 1,
                        ));
                    }
                },
            }
            i = i + 1;
        }
        proof {
            assert(match_triples(es, text@, n as int) =~= Seq::<(i64, usize, usize)>::empty());
            assert(match_triples(es, text@, 0) =~= ts@);
        }
        sort_ranked(&mut ts);
        proof {
            assert(es.len() <= usize::MAX);
            lemma_match_triples_elems(es, text@, 0);
            assert forall|l: int| 0 <= l < ts@.len() implies 0 <= (#[trigger] ts@[l]).2
                < es.len() by {
                assert(ts@.contains(ts@[l]));
                assert(ts@.to_multiset().count(ts@[l]) > 0);
                assert(match_triples(es, text@, 0).to_multiset().count(ts@[l]) > 0);
                assert(match_triples(es, text@, 0).contains(ts@[l]));
            }
        }
        let m = ts.len();
        let mut r: Vec<NormalDesktopEntry> = Vec::new();
        let mut k: usize = 0;
        while k < m
            invariant
                m == ts@.len(),
                k <= m,
                n == normalized_entries@.len(),
                es == entry_views(normalized_entries@),
                forall|l: int| 0 <= l < m ==> 0 <= (#[trigger] ts@[l]).2 < n,
                r@.len() == k,
                forall|l: int| 0 <= l < k ==> (#[trigger] r@[l])@ == es[ts@[l].2 as int],
            decreases m - k,
        {
            let idx = ts[k].2;
            r.push(normalized_entries[idx].clone());
            k = k + 1;
        }
        proof {
            let ghost tv = ts@;
            assert(entry_views(r@) =~= tv.map_values(|t: (i64, usize, usize)| es[t.2 as int]));
            assert(fuzzy_ranked(es, text@, entry_views(r@)));
        }
        r
    }
}

/// The rank triples of all entries under usage ordering: the launch
/// count as the score and the entry's own index as the tie-break, so
/// the order is stable and zero-usage entries keep catalog order.
pub open spec fn usage_triples(es: Seq<EntryView>, h: Map<Seq<char>, u32>, i: int) -> Seq<
    (i64, usize, usize),
>
    decreases es.len() - i,
{
    if i < 0 || i >= es.len() {
        Seq::empty()
    } else {
        seq![
            (count_of(h, es[i].appid) as i64, i as usize, i as usize)
        ] + usage_triples(es, h, i + 1)
    }
}

proof fn lemma_usage_triples_elems(es: Seq<EntryView>, h: Map<Seq<char>, u32>, i: int)
    requires
        0 <= i,
        es.len() <= usize::MAX,
    ensures
        forall|t: (i64, usize, usize)|
            #[trigger] usage_triples(es, h, i).contains(t) ==> i <= t.2 < es.len(),
    decreases es.len() - i,
{
    if i < es.len() {
        lemma_usage_triples_elems(es, h, i + 1);
        assert forall|t: (i64, usize, usize)|
            #[trigger] usage_triples(es, h, i).contains(t) implies i <= t.2 < es.len() by {
            let m = usage_triples(es, h, i);
            let k = choose|k: int| 0 <= k < m.len() && m[k] == t;
            if k > 0 {
                assert(usage_triples(es, h, i + 1)[k - 1] == t);
                assert(usage_triples(es, h, i + 1).contains(t));
            }
        }
    }
}

/// The usage-mode contract: a permutation of all entries, sorted by
/// launch count descending, and stable: among equal counts the original
/// catalog order is kept.
pub open spec fn usage_ranked(
    es: Seq<EntryView>,
    h: Map<Seq<char>, u32>,
    rs: Seq<EntryView>,
) -> bool {
    exists|ts: Seq<(i64, usize, usize)>|
        {
            &&& #[trigger] ts.to_multiset() == usage_triples(es, h, 0).to_multiset()
            &&& sorted_ranked(ts)
            &&& rs == ts.map_values(|t: (i64, usize, usize)| es[t.2 as int])
        }
}

/// Usage mode: sorts the full entry list by descending launch count,
/// looked up by identity; entries without a record count zero, and the
/// sort is stable, so zero-usage entries keep catalog order.
pub fn sorted_entries_by_usage(entries: &[NormalDesktopEntry], usage: &HistoryMap) -> (r: Vec<
    NormalDesktopEntry,
>)
    requires
        usage.wf(),
    ensures
        usage_ranked(entry_views(entries@), usage@, entry_views(r@)),
{
    let ghost es = entry_views(entries@);
    let n = entries.len();
    let mut ts: Vec<(i64, usize, usize)> = Vec::new();
    let mut i: usize = 0;
    proof {
        assert(usage_triples(es, usage@, 0) =~= ts@ + usage_triples(es, usage@, 0));
    }
    while i < n
        invariant
            n == entries@.len(),
            es == entry_views(entries@),
            usage.wf(),
            i <= n,
            usage_triples(es, usage@, 0) == ts@ + usage_triples(es, usage@, i as int),
        decreases n - i,
    {
        let e = &entries[i];
        let count = usage.get_count(e.appid.as_str());
        proof {
            assert(es[i as int] == e@);
        }
        ts.push((count as i64, i, i));
        proof {
            assert(usage_triples(es, usage@, i as int) =~= seq![
                (count as i64, i, i)
            ] + usage_triples(es, usage@, i as int + 1));
            assert(usage_triples(es, usage@, 0) =~= ts@ + usage_triples(
                es,
                usage@,
                i as int + 1,
            ));
        }
        i = i + 1;
    }
    proof {
        assert(usage_triples(es, usage@, n as int) =~= Seq::<(i64, usize, usize)>::empty());
        assert(usage_triples(es, usage@, 0) =~= ts@);
    }
    sort_ranked(&mut ts);
    proof {
        assert(es.len() <= usize::MAX);
        lemma_usage_triples_elems(es, usage@, 0);
        assert forall|l: int| 0 <= l < ts@.len() implies 0 <= (#[trigger] ts@[l]).2 < es.len() by {
            assert(ts@.contains(ts@[l]));
            assert(ts@.to_multiset().count(ts@[l]) > 0);
            assert(usage_triples(es, usage@, 0).to_multiset().count(ts@[l]) > 0);
            assert(usage_triples(es, usage@, 0).contains(ts@[l]));
        }
    }
    let m = ts.len();
    let mut r: Vec<NormalDesktopEntry> = Vec::new();
    let mut k: usize = 0;
    while k < m
        invariant
            m == ts@.len(),
            k <= m,
            n == entries@.len(),
            es == entry_views(entries@),
            forall|l: int| 0 <= l < m ==> 0 <= (#[trigger] ts@[l]).2 < n,
            r@.len() == k,
            forall|l: int| 0 <= l < k ==> (#[trigger] r@[l])@ == es[ts@[l].2 as int],
        decreases m - k,
    {
        let idx = ts[k].2;
        r.push(entries[idx].clone());
        k = k + 1;
    }
    proof {
        let ghost tv = ts@;
        assert(entry_views(r@) =~= tv.map_values(|t: (i64, usize, usize)| es[t.2 as int]));
        assert(usage_ranked(es, usage@, entry_views(r@)));
    }
    r
}

/// Mode selection: fuzzy ranking for a non-empty query, usage ordering
/// for an empty one.
pub fn rank_entries(text: &str, entries: &[NormalDesktopEntry], usage: &HistoryMap) -> (r: Vec<
    NormalDesktopEntry,
>)
    requires
        usage.wf(),
    ensures
        text@.len() > 0 ==> fuzzy_ranked(entry_views(entries@), text@, entry_views(r@)),
        text@.len() == 0 ==> usage_ranked(entry_views(entries@), usage@, entry_views(r@)),
{
    if text.is_empty() {
        sorted_entries_by_usage(entries, usage)
    } else {
        DesktopEntryManager::filter_and_sort_entries(text, entries)
    }
}

} // verus!
