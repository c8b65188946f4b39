//! Scoring the items against a query and ranking those that match.

use crate::item::{Item, ScoredItem};
use fuzzy_matcher::skim::SkimMatcherV2;
use fuzzy_matcher::FuzzyMatcher;
use vstd::prelude::*;

verus! {

/// What the skim matcher, as it is configured by default, makes of a label
/// and a query: nothing where the label does not match, else the score and
/// the positions of the matched characters.
pub uninterp spec fn skim_match(choice: Seq<char>, pattern: Seq<char>) -> Option<(i64, Seq<usize>)>;

/// `r` is the outcome `m` with its positions held in a `Vec`.
pub open spec fn same_outcome(r: Option<(i64, Vec<usize>)>, m: Option<(i64, Seq<usize>)>) -> bool {
    match (r, m) {
        (Some(a), Some(b)) => a.0 == b.0 && a.1@ == b.1,
        (None, None) => true,
        _ => false,
    }
}

/// Calls `fuzzy_indices` of `fuzzy_matcher`'s `SkimMatcherV2`, in its default
/// configuration. Believed of it: the outcome is a function of the label and
/// the query alone, and an empty query matches every label with score 0 and
/// no positions.
#[verifier::external_body]
fn fuzzy_indices(choice: &str, pattern: &str) -> (r: Option<(i64, Vec<usize>)>)
    ensures
        same_outcome(r, skim_match(choice@, pattern@)),
        same_outcome(r, Some((0i64, Seq::<usize>::empty()))) || pattern@.len() > 0,
{
    SkimMatcherV2::default().fuzzy_indices(choice, pattern)
}

/// The places in `items` of those that match `query`, in rising order.
pub open spec fn matching<T>(items: Seq<Item<T>>, query: Seq<char>) -> Seq<int>
    decreases items.len(),
{
    if items.len() == 0 {
        Seq::empty()
    } else {
        let rest = matching(items.drop_last(), query);
        if skim_match(items.last().name@, query) is Some {
            rest.push(items.len() - 1)
        } else {
            rest
        }
    }
}

/// The places that `matching` gives are those of the items that match, each
/// one once and in rising order.
pub proof fn lemma_matching_is_filter<T>(items: Seq<Item<T>>, query: Seq<char>)
    ensures
        forall|k: int|
            0 <= k < matching(items, query).len() ==> 0 <= (#[trigger] matching(items, query)[k])
                < items.len() && skim_match(items[matching(items, query)[k]].name@, query) is Some,
        forall|j: int, k: int|
            0 <= j < k < matching(items, query).len() ==> (#[trigger] matching(items, query)[j]) < (
            #[trigger] matching(items, query)[k]),
        forall|i: int|
            0 <= i < items.len() && skim_match((#[trigger] items[i]).name@, query) is Some
                ==> matching(items, query).contains(i),
    decreases items.len(),
{
    if items.len() > 0 {
        let shorter = items.drop_last();
        let rest = matching(shorter, query);
        let all = matching(items, query);
        lemma_matching_is_filter(shorter, query);
        assert forall|k: int| 0 <= k < all.len() implies 0 <= (#[trigger] all[k]) < items.len()
            && skim_match(items[all[k]].name@, query) is Some by {
            if k < rest.len() {
                assert(all[k] == rest[k]);
                assert(shorter[rest[k]] == items[rest[k]]);
            }
        }
        assert forall|j: int, k: int| 0 <= j < k < all.len() implies (#[trigger] all[j]) < (
        #[trigger] all[k]) by {
            assert(all[j] == rest[j]);
            if k < rest.len() {
                assert(all[k] == rest[k]);
            }
        }
        assert forall|i: int|
            0 <= i < items.len() && skim_match((#[trigger] items[i]).name@, query) is Some implies all.contains(
            i,
        ) by {
            if i < shorter.len() {
                assert(shorter[i] == items[i]);
                assert(rest.contains(i));
                let k = choose|k: int| 0 <= k < rest.len() && rest[k] == i;
                assert(all[k] == i);
            } else {
                assert(all[all.len() - 1] == i);
            }
        }
    }
}

/// `scored` is a copy of `item` with the outcome of matching it against
/// `query`.
pub open spec fn scored_from<T: Clone>(item: Item<T>, query: Seq<char>, scored: ScoredItem<T>) -> bool {
    &&& scored.item.name == item.name
    &&& cloned(item.data, scored.item.data)
    &&& skim_match(item.name@, query) == Some((scored.score, scored.fuzzy_indices@))
}

/// `found` holds a scored copy of each item that matches `query`, and of no
/// other, in the order of `items`.
pub open spec fn is_found<T: Clone>(
    items: Seq<Item<T>>,
    query: Seq<char>,
    found: Seq<ScoredItem<T>>,
) -> bool {
    let places = matching(items, query);
    &&& found.len() == places.len()
    &&& forall|k: int|
        0 <= k < found.len() ==> 0 <= (#[trigger] places[k]) < items.len() && scored_from(
            items[places[k]],
            query,
            found[k],
        )
}

/// Where an entry with the given score goes into a list ranked so far: behind
/// the last entry whose score is at least as high.
pub open spec fn slot<T>(ranked: Seq<ScoredItem<T>>, score: i64) -> int
    decreases ranked.len(),
{
    if ranked.len() == 0 {
        0
    } else if ranked.last().score >= score {
        ranked.len() as int
    } else {
        slot(ranked.drop_last(), score)
    }
}

/// The entries of `found` by falling score, those of equal score in the
/// order they have in `found`.
pub open spec fn ranked<T>(found: Seq<ScoredItem<T>>) -> Seq<ScoredItem<T>>
    decreases found.len(),
{
    if found.len() == 0 {
        Seq::empty()
    } else {
        let before = ranked(found.drop_last());
        before.insert(slot(before, found.last().score), found.last())
    }
}

/// `matches` is the ranking of the items that match `query`.
pub open spec fn is_ranking<T: Clone>(
    items: Seq<Item<T>>,
    query: Seq<char>,
    matches: Seq<ScoredItem<T>>,
) -> bool {
    exists|found: Seq<ScoredItem<T>>| is_found(items, query, found) && matches == ranked(found)
}

/// The ranking is as long as the list it ranks.
pub proof fn lemma_ranked_len<T>(found: Seq<ScoredItem<T>>)
    ensures
        ranked(found).len() == found.len(),
    decreases found.len(),
{
    if found.len() > 0 {
        lemma_ranked_len(found.drop_last());
        lemma_slot_bounds(ranked(found.drop_last()), found.last().score);
    }
}

/// The slot lies within the list or right behind it; every entry from the
/// slot on has a lower score, and the entry before it has not.
pub proof fn lemma_slot_bounds<T>(ranked: Seq<ScoredItem<T>>, score: i64)
    ensures
        0 <= slot(ranked, score) <= ranked.len(),
        forall|k: int| slot(ranked, score) <= k < ranked.len() ==> (#[trigger] ranked[k]).score < score,
        slot(ranked, score) > 0 ==> ranked[slot(ranked, score) - 1].score >= score,
    decreases ranked.len(),
{
    if ranked.len() > 0 && ranked.last().score < score {
        let shorter = ranked.drop_last();
        lemma_slot_bounds(shorter, score);
        assert forall|k: int| slot(ranked, score) <= k < ranked.len() implies (#[trigger] ranked[k]).score
            < score by {
            if k < shorter.len() {
                assert(shorter[k] == ranked[k]);
            }
        }
        if slot(ranked, score) > 0 {
            assert(shorter[slot(ranked, score) - 1] == ranked[slot(ranked, score) - 1]);
        }
    }
}

/// For each place in the ranking, the place in `found` of the entry that
/// stands there.
pub open spec fn order<T>(found: Seq<ScoredItem<T>>) -> Seq<int>
    decreases found.len(),
{
    if found.len() == 0 {
        Seq::empty()
    } else {
        let shorter = found.drop_last();
        order(shorter).insert(slot(ranked(shorter), found.last().score), found.len() - 1)
    }
}

/// The ranking holds the entries of `found`, each one once: the entry at
/// place `k` is the one that `found` has at `order(found)[k]`, and every
/// place of `found` occurs in the order. Scores fall along the ranking, and
/// of two entries with the same score the one that comes first in `found`
/// comes first in the ranking.
pub proof fn lemma_ranked_is_stable_sort<T>(found: Seq<ScoredItem<T>>)
    ensures
        ranked(found).len() == found.len(),
        order(found).len() == found.len(),
        forall|k: int|
            0 <= k < found.len() ==> 0 <= (#[trigger] order(found)[k]) < found.len() && ranked(
                found,
            )[k] == found[order(found)[k]],
        forall|i: int| 0 <= i < found.len() ==> order(found).contains(i),
        forall|j: int, k: int|
            0 <= j < k < found.len() ==> {
                let first = #[trigger] ranked(found)[j];
                let second = #[trigger] ranked(found)[k];
                first.score > second.score || (first.score == second.score && order(found)[j]
                    < order(found)[k])
            },
    decreases found.len(),
{
    if found.len() > 0 {
        let shorter = found.drop_last();
        let x = found.last();
        let before = ranked(shorter);
        let places = order(shorter);
        let t = slot(before, x.score);
        let n = found.len() as int;
        lemma_ranked_is_stable_sort(shorter);
        lemma_slot_bounds(before, x.score);
        let after = ranked(found);
        let now = order(found);
        assert(after == before.insert(t, x));
        assert(now == places.insert(t, n - 1));
        assert forall|k: int| 0 <= k < n implies 0 <= (#[trigger] now[k]) < n && after[k]
            == found[now[k]] by {
            if k < t {
                assert(now[k] == places[k]);
                assert(after[k] == before[k]);
                assert(shorter[places[k]] == found[places[k]]);
            } else if k > t {
                assert(now[k] == places[k - 1]);
                assert(after[k] == before[k - 1]);
                assert(shorter[places[k - 1]] == found[places[k - 1]]);
            }
        }
        assert forall|i: int| 0 <= i < n implies now.contains(i) by {
            if i == n - 1 {
                assert(now[t] == i);
            } else {
                assert(places.contains(i));
                let k = choose|k: int| 0 <= k < places.len() && places[k] == i;
                if k < t {
                    assert(now[k] == i);
                } else {
                    assert(now[k + 1] == i);
                }
            }
        }
        assert forall|j: int, k: int| 0 <= j < k < n implies ({
            let first = #[trigger] after[j];
            let second = #[trigger] after[k];
            first.score > second.score || (first.score == second.score && now[j] < now[k])
        }) by {
            if k < t {
                assert(after[j] == before[j] && after[k] == before[k]);
                assert(now[j] == places[j] && now[k] == places[k]);
            } else if k == t {
                assert(after[j] == before[j]);
                assert(now[j] == places[j]);
                assert(now[k] == n - 1);
                if j < t - 1 {
                    assert(before[j].score >= before[t - 1].score);
                }
            } else if j < t {
                assert(after[j] == before[j] && after[k] == before[k - 1]);
                assert(now[j] == places[j] && now[k] == places[k - 1]);
            } else if j == t {
                assert(after[k] == before[k - 1]);
            } else {
                assert(after[j] == before[j - 1] && after[k] == before[k - 1]);
                assert(now[j] == places[j - 1] && now[k] == places[k - 1]);
            }
        }
    }
}

/// The two lists hold entries with the same labels, scores and positions,
/// place by place.
pub open spec fn alike<T>(a: Seq<ScoredItem<T>>, b: Seq<ScoredItem<T>>) -> bool {
    &&& a.len() == b.len()
    &&& forall|k: int|
        0 <= k < a.len() ==> (#[trigger] a[k]).item.name == b[k].item.name && a[k].score
            == b[k].score && a[k].fuzzy_indices@ == b[k].fuzzy_indices@
}

/// Lists that are alike have the same slot for a score.
pub proof fn lemma_slot_of_alike<T>(a: Seq<ScoredItem<T>>, b: Seq<ScoredItem<T>>, score: i64)
    requires
        alike(a, b),
    ensures
        slot(a, score) == slot(b, score),
    decreases a.len(),
{
    if a.len() > 0 {
        assert(a.last().score == a[a.len() - 1].score);
        assert(b.last().score == a[a.len() - 1].score);
        if a.last().score < score {
            assert forall|k: int| 0 <= k < a.drop_last().len() implies (#[trigger] a.drop_last()[k]).item.name
                == b.drop_last()[k].item.name && a.drop_last()[k].score == b.drop_last()[k].score
                && a.drop_last()[k].fuzzy_indices@ == b.drop_last()[k].fuzzy_indices@ by {
                assert(a.drop_last()[k] == a[k]);
                assert(b.drop_last()[k] == b[k]);
            }
            lemma_slot_of_alike(a.drop_last(), b.drop_last(), score);
        }
    }
}

/// Lists that are alike have rankings that are alike.
pub proof fn lemma_ranked_of_alike<T>(a: Seq<ScoredItem<T>>, b: Seq<ScoredItem<T>>)
    requires
        alike(a, b),
    ensures
        alike(ranked(a), ranked(b)),
    decreases a.len(),
{
    if a.len() > 0 {
        let sa = a.drop_last();
        let sb = b.drop_last();
        assert forall|k: int| 0 <= k < sa.len() implies (#[trigger] sa[k]).item.name
            == sb[k].item.name && sa[k].score == sb[k].score && sa[k].fuzzy_indices@
            == sb[k].fuzzy_indices@ by {
            assert(sa[k] == a[k]);
            assert(sb[k] == b[k]);
        }
        lemma_ranked_of_alike(sa, sb);
        let ra = ranked(sa);
        let rb = ranked(sb);
        assert(a.last() == a[a.len() - 1]);
        assert(b.last() == b[a.len() - 1]);
        let score = a.last().score;
        lemma_slot_of_alike(ra, rb, score);
        lemma_slot_bounds(ra, score);
        lemma_ranked_len(sa);
        lemma_ranked_len(sb);
        let t = slot(ra, score);
        let na = ra.insert(t, a.last());
        let nb = rb.insert(t, b.last());
        assert forall|k: int| 0 <= k < na.len() implies (#[trigger] na[k]).item.name
            == nb[k].item.name && na[k].score == nb[k].score && na[k].fuzzy_indices@
            == nb[k].fuzzy_indices@ by {
            if k < t {
                assert(na[k] == ra[k] && nb[k] == rb[k]);
            } else if k > t {
                assert(na[k] == ra[k - 1] && nb[k] == rb[k - 1]);
            }
        }
    }
}

/// Ranking the same items for the same query gives the same list every
/// time: two rankings have the same labels, scores and matched positions,
/// place by place.
pub proof fn lemma_ranking_is_determined<T: Clone>(
    items: Seq<Item<T>>,
    query: Seq<char>,
    first: Seq<ScoredItem<T>>,
    second: Seq<ScoredItem<T>>,
)
    requires
        is_ranking(items, query, first),
        is_ranking(items, query, second),
    ensures
        alike(first, second),
{
    let a = choose|found: Seq<ScoredItem<T>>| is_found(items, query, found) && first == ranked(found);
    let b = choose|found: Seq<ScoredItem<T>>|
        is_found(items, query, found) && second == ranked(found);
    let places = matching(items, query);
    assert forall|k: int| 0 <= k < a.len() implies (#[trigger] a[k]).item.name == b[k].item.name
        && a[k].score == b[k].score && a[k].fuzzy_indices@ == b[k].fuzzy_indices@ by {
        assert(scored_from(items[places[k]], query, a[k]));
        assert(scored_from(items[places[k]], query, b[k]));
    }
    lemma_ranked_of_alike(a, b);
}

/// With an empty query every item matches, with score 0: the ranking holds
/// the items in their own order.
pub proof fn lemma_equal_scores_keep_order<T>(found: Seq<ScoredItem<T>>)
    requires
        forall|k: int| 0 <= k < found.len() ==> (#[trigger] found[k]).score == found[0].score,
    ensures
        ranked(found) == found,
    decreases found.len(),
{
    if found.len() > 0 {
        let shorter = found.drop_last();
        assert forall|k: int| 0 <= k < shorter.len() implies (#[trigger] shorter[k]).score
            == shorter[0].score by {
            assert(shorter[k] == found[k]);
            assert(shorter[0] == found[0]);
        }
        lemma_equal_scores_keep_order(shorter);
        if shorter.len() > 0 {
            assert(shorter.last() == found[found.len() - 2]);
        }
        assert(found.last() == found[found.len() - 1]);
        assert(ranked(found) =~= found);
    }
}

/// `found` holds a copy of every item, in the order of `items`, each with
/// score 0 and no matched position.
pub open spec fn all_unscored<T: Clone>(items: Seq<Item<T>>, found: Seq<ScoredItem<T>>) -> bool {
    &&& found.len() == items.len()
    &&& forall|k: int|
        0 <= k < found.len() ==> (#[trigger] found[k]).item.name == items[k].name && cloned(
            items[k].data,
            found[k].item.data,
        ) && found[k].score == 0 && found[k].fuzzy_indices@.len() == 0
}

/// Scores every item against `query` and keeps a scored copy of each one
/// that matches, in the order of `items`. The empty query matches them all.
pub fn find_matches<T: Clone>(items: &Vec<Item<T>>, query: &str) -> (found: Vec<ScoredItem<T>>)
    ensures
        is_found(items@, query@, found@),
        query@.len() == 0 ==> all_unscored(items@, found@),
{
    let mut found: Vec<ScoredItem<T>> = Vec::new();
    let mut i: usize = 0;
    while i < items.len()
        invariant
            i <= items@.len(),
            is_found(items@.take(i as int), query@, found@),
            query@.len() == 0 ==> all_unscored(items@.take(i as int), found@),
        decreases items@.len() - i,
    {
        let ghost q = query@;
        let ghost before = items@.take(i as int);
        let ghost after = items@.take(i + 1);
        let ghost old_found = found@;
        assert(after.drop_last() =~= before);
        assert(after.last() == items@[i as int]);
        let item = &items[i];
        match fuzzy_indices(item.name.as_str(), query) {
            Some((score, positions)) => {
                found.push(item.clone().with_score(score, positions));
                assert(matching(after, q) == matching(before, q).push(i as int));
                assert forall|k: int| 0 <= k < found@.len() implies 0 <= (#[trigger] matching(
                    after,
                    q,
                )[k]) < after.len() && scored_from(
                    after[matching(after, q)[k]],
                    q,
                    found@[k],
                ) by {
                    if k < old_found.len() {
                        assert(found@[k] == old_found[k]);
                        assert(matching(after, q)[k] == matching(before, q)[k]);
                        assert(after[matching(before, q)[k]] == before[matching(before, q)[k]]);
                    }
                }
            },
            None => {
                assert(matching(after, q) == matching(before, q));
                assert forall|k: int| 0 <= k < found@.len() implies 0 <= (#[trigger] matching(
                    after,
                    q,
                )[k]) < after.len() && scored_from(
                    after[matching(after, q)[k]],
                    q,
                    found@[k],
                ) by {
                    assert(after[matching(before, q)[k]] == before[matching(before, q)[k]]);
                }
            },
        }
        i = i + 1;
    }
    assert(items@.take(i as int) =~= items@);
    found
}

/// Puts the matches in order of falling score. Matches of equal score keep
/// the order they came in.
pub fn sort_matches<T>(matches: &mut Vec<ScoredItem<T>>)
    ensures
        final(matches)@ == ranked(old(matches)@),
{
    let ghost orig = matches@;
    let n: usize = matches.len();
    let mut i: usize = 0;
    while i < n
        invariant
            i <= n,
            n == orig.len(),
            matches@.len() == n,
            matches@.take(i as int) == ranked(orig.take(i as int)),
            matches@.skip(i as int) == orig.skip(i as int),
        decreases n - i,
    {
        let ghost head = matches@.take(i as int);
        let ghost cur = matches@;
        let score: i64 = matches[i].score;
        assert(matches@[i as int] == orig.skip(i as int)[0]);
        let mut j: usize = i;
        assert(head.take(i as int) =~= head);
        while j > 0 && matches[j - 1].score < score
            invariant
                j <= i < n,
                matches@ == cur,
                cur.len() == n,
                head == cur.take(i as int),
                slot(head, score) == slot(head.take(j as int), score),
            decreases j,
        {
            assert(head.take(j as int).last() == cur[j - 1]);
            assert(head.take(j as int).drop_last() =~= head.take(j - 1));
            j = j - 1;
        }
        proof {
            if j > 0 {
                assert(head.take(j as int).last() == cur[j - 1]);
            }
            assert(slot(head, score) == j);
            assert(orig.take(i + 1).drop_last() =~= orig.take(i as int));
            assert(orig.take(i + 1).last() == orig[i as int]);
        }
        let x = matches.remove(i);
        matches.insert(j, x);
        proof {
            assert(matches@.take(i + 1) =~= head.insert(j as int, x));
            assert forall|k: int| i + 1 <= k < n implies matches@[k] == orig[k] by {
                assert(cur[k] == cur.skip(i as int)[k - i]);
                assert(orig[k] == orig.skip(i as int)[k - i]);
            }
            assert(matches@.skip(i + 1) =~= orig.skip(i + 1));
        }
        i = i + 1;
    }
    assert(matches@.take(n as int) =~= matches@);
    assert(orig.take(n as int) =~= orig);
}

/// The items that match `query`, each with its score, the best first; among
/// matches of equal score the one that comes first in `items` stays first.
/// For the empty query these are all the items in their own order.
pub fn rank_matches<T: Clone>(items: &Vec<Item<T>>, query: &str) -> (matches: Vec<ScoredItem<T>>)
    ensures
        is_ranking(items@, query@, matches@),
        query@.len() == 0 ==> all_unscored(items@, matches@),
{
    let mut matches = find_matches(items, query);
    let ghost found = matches@;
    proof {
        if query@.len() == 0 {
            lemma_equal_scores_keep_order(found);
        }
    }
    sort_matches(&mut matches);
    assert(is_found(items@, query@, found) && matches@ == ranked(found));
    matches
}

} // verus!
