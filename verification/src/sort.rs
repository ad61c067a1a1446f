//! Stable sorting of search results by score, largest first. Results are
//! inserted one by one behind every earlier result of equal or larger score,
//! so ties keep their encountered order.

use vstd::prelude::*;
use vstd::seq_lib::group_to_multiset_ensures;

use crate::record::{
    lemma_score_ge_total, lemma_score_ge_trans, score_cmp_ge, score_ge, score_wf, SearchResult,
    SearchResultV,
};

verus! {

/// `x` placed behind every leading element of `s` whose score is at least
/// `x`'s, in front of the rest.
pub open spec fn insert_desc(s: Seq<SearchResultV>, x: SearchResultV) -> Seq<SearchResultV>
    decreases s.len(),
{
    if s.len() == 0 {
        seq![x]
    } else if score_ge(s[0].score, x.score) {
        seq![s[0]] + insert_desc(s.drop_first(), x)
    } else {
        seq![x] + s
    }
}

/// The results of `s` reordered by score, largest first, ties in the order
/// they stand in `s`.
pub open spec fn sort_by_score(s: Seq<SearchResultV>) -> Seq<SearchResultV>
    decreases s.len(),
{
    if s.len() == 0 {
        Seq::empty()
    } else {
        insert_desc(sort_by_score(s.drop_last()), s.last())
    }
}

/// Every score of `s` is well-formed.
pub open spec fn all_scores_wf(s: Seq<SearchResultV>) -> bool {
    forall|i: int| 0 <= i < s.len() ==> score_wf(#[trigger] s[i].score)
}

/// `s` is ordered by score, largest first.
pub open spec fn sorted_by_score(s: Seq<SearchResultV>) -> bool {
    forall|i: int, j: int| 0 <= i <= j < s.len() ==> score_ge(s[i].score, s[j].score)
}

/// Where the first `p` elements of `s` have scores at least `x`'s and the
/// element after them does not, inserting `x` lands at position `p`.
proof fn lemma_insert_desc_at(s: Seq<SearchResultV>, x: SearchResultV, p: int)
    requires
        0 <= p <= s.len(),
        forall|k: int| 0 <= k < p ==> score_ge(#[trigger] s[k].score, x.score),
        p < s.len() ==> !score_ge(s[p].score, x.score),
    ensures
        insert_desc(s, x) == s.insert(p, x),
    decreases p,
{
    if p == 0 {
        if s.len() == 0 {
            assert(insert_desc(s, x) =~= s.insert(0, x));
        } else {
            assert(insert_desc(s, x) =~= s.insert(0, x));
        }
    } else {
        assert(score_ge(s[0].score, x.score));
        let rest = s.drop_first();
        assert forall|k: int| 0 <= k < p - 1 implies score_ge(#[trigger] rest[k].score, x.score) by {
            assert(rest[k] == s[k + 1]);
        }
        lemma_insert_desc_at(rest, x, p - 1);
        assert(insert_desc(s, x) =~= s.insert(p, x));
    }
}

/// Inserting adds exactly `x` to the contents of `s`.
pub proof fn lemma_insert_desc_multiset(s: Seq<SearchResultV>, x: SearchResultV)
    ensures
        insert_desc(s, x).to_multiset() =~= s.to_multiset().insert(x),
    decreases s.len(),
{
    broadcast use group_to_multiset_ensures;

    if s.len() == 0 {
        assert(insert_desc(s, x) =~= s.insert(0, x));
    } else if score_ge(s[0].score, x.score) {
        let rest = s.drop_first();
        lemma_insert_desc_multiset(rest, x);
        assert(insert_desc(rest, x).insert(0, s[0]) =~= seq![s[0]] + insert_desc(rest, x));
        assert(rest.insert(0, s[0]) =~= s);
        assert(insert_desc(s, x).to_multiset() =~= rest.to_multiset().insert(x).insert(s[0]));
        assert(s.to_multiset() =~= rest.to_multiset().insert(s[0]));
        assert(rest.to_multiset().insert(x).insert(s[0]) =~= rest.to_multiset().insert(
            s[0],
        ).insert(x));
    } else {
        assert(insert_desc(s, x) =~= s.insert(0, x));
    }
}

/// Sorting keeps the contents of the list: the output is a permutation.
pub proof fn lemma_sort_by_score_permutes(s: Seq<SearchResultV>)
    ensures
        sort_by_score(s).to_multiset() =~= s.to_multiset(),
    decreases s.len(),
{
    broadcast use group_to_multiset_ensures;

    if s.len() > 0 {
        let prefix = s.drop_last();
        lemma_sort_by_score_permutes(prefix);
        lemma_insert_desc_multiset(sort_by_score(prefix), s.last());
        assert(prefix.push(s.last()) =~= s);
    }
}

/// Inserting into a list sorted by descending score keeps it sorted.
proof fn lemma_insert_desc_sorted(s: Seq<SearchResultV>, x: SearchResultV)
    requires
        sorted_by_score(s),
        all_scores_wf(s),
        score_wf(x.score),
    ensures
        sorted_by_score(insert_desc(s, x)),
    decreases s.len(),
{
    broadcast use group_to_multiset_ensures;

    if s.len() == 0 {
    } else if score_ge(s[0].score, x.score) {
        let rest = s.drop_first();
        assert forall|i: int, j: int| 0 <= i <= j < rest.len() implies score_ge(
            #[trigger] rest[i].score,
            #[trigger] rest[j].score,
        ) by {
            assert(rest[i] == s[i + 1] && rest[j] == s[j + 1]);
        }
        assert forall|i: int| 0 <= i < rest.len() implies score_wf(#[trigger] rest[i].score) by {
            assert(rest[i] == s[i + 1]);
        }
        lemma_insert_desc_sorted(rest, x);
        let inner = insert_desc(rest, x);
        lemma_insert_desc_multiset(rest, x);
        let out = insert_desc(s, x);
        assert(out =~= seq![s[0]] + inner);
        assert forall|i: int, j: int| 0 <= i <= j < out.len() implies score_ge(
            #[trigger] out[i].score,
            #[trigger] out[j].score,
        ) by {
            if i == 0 && j > 0 {
                let y = inner[j - 1];
                assert(inner.contains(y));
                assert(inner.to_multiset().count(y) > 0);
                if y == x {
                    assert(score_ge(s[0].score, y.score));
                } else {
                    assert(rest.to_multiset().insert(x).count(y) > 0);
                    assert(rest.to_multiset().count(y) > 0);
                    assert(rest.contains(y));
                    let k = choose|k: int| 0 <= k < rest.len() && rest[k] == y;
                    assert(rest[k] == s[k + 1]);
                    assert(score_ge(s[0].score, y.score));
                }
            } else if i > 0 {
                assert(out[i] == inner[i - 1] && out[j] == inner[j - 1]);
            }
        }
    } else {
        lemma_score_ge_total(s[0].score, x.score);
        let out = insert_desc(s, x);
        assert(out =~= seq![x] + s);
        assert forall|i: int, j: int| 0 <= i <= j < out.len() implies score_ge(
            #[trigger] out[i].score,
            #[trigger] out[j].score,
        ) by {
            if i == 0 && j > 0 {
                lemma_score_ge_trans(x.score, s[0].score, s[j - 1].score);
            } else if i > 0 {
                assert(out[i] == s[i - 1] && out[j] == s[j - 1]);
            }
        }
    }
}

/// The sorted list is ordered by score, largest first.
pub proof fn lemma_sort_by_score_sorted(s: Seq<SearchResultV>)
    requires
        all_scores_wf(s),
    ensures
        sorted_by_score(sort_by_score(s)),
    decreases s.len(),
{
    broadcast use group_to_multiset_ensures;

    if s.len() > 0 {
        let prefix = s.drop_last();
        assert forall|i: int| 0 <= i < prefix.len() implies score_wf(
            #[trigger] prefix[i].score,
        ) by {
            assert(prefix[i] == s[i]);
        }
        lemma_sort_by_score_sorted(prefix);
        let sorted_prefix = sort_by_score(prefix);
        lemma_sort_by_score_permutes(prefix);
        assert forall|i: int| 0 <= i < sorted_prefix.len() implies score_wf(
            #[trigger] sorted_prefix[i].score,
        ) by {
            let y = sorted_prefix[i];
            assert(sorted_prefix.contains(y));
            assert(sorted_prefix.to_multiset().count(y) > 0);
            assert(prefix.contains(y));
        }
        lemma_insert_desc_sorted(sorted_prefix, s.last());
    }
}

/// Places `x` behind every leading result of `v` whose score is at least its
/// own.
fn insert_sorted(v: Vec<SearchResult>, x: SearchResult) -> (r: Vec<SearchResult>)
    ensures
        r.deep_view() == insert_desc(v.deep_view(), x@),
{
    let ghost s = v.deep_view();
    let mut v = v;
    let mut p: usize = 0;
    while p < v.len() && score_cmp_ge(&v[p].score, &x.score)
        invariant
            p <= v.len(),
            v.deep_view() == s,
            forall|k: int| 0 <= k < p ==> score_ge(#[trigger] s[k].score, x@.score),
        decreases v.len() - p,
    {
        proof {
            assert(s[p as int].score == v@[p as int]@.score);
        }
        p = p + 1;
    }
    proof {
        assert(p < v.len() ==> s[p as int].score == v@[p as int]@.score);
        lemma_insert_desc_at(s, x@, p as int);
    }
    v.insert(p, x);
    proof {
        assert(v.deep_view() =~= s.insert(p as int, x@));
    }
    v
}

/// Sorts the results by score, largest first, ties in their present order.
pub fn sort_results(results: Vec<SearchResult>) -> (r: Vec<SearchResult>)
    ensures
        r.deep_view() == sort_by_score(results.deep_view()),
{
    let ghost s = results.deep_view();
    let mut rest = results;
    let mut out: Vec<SearchResult> = Vec::new();
    let mut i: usize = 0;
    proof {
        vstd::std_specs::vec::axiom_spec_len(&rest);
        assert(s.len() == rest@.len());
        assert(out.deep_view() =~= sort_by_score(s.subrange(0, 0)));
    }
    while rest.len() > 0
        invariant
            s.len() <= usize::MAX,
            i + rest.len() == s.len(),
            rest.deep_view() =~= s.subrange(i as int, s.len() as int),
            out.deep_view() == sort_by_score(s.subrange(0, i as int)),
        decreases rest.len(),
    {
        let ghost prev_rows = rest@;
        let ghost prev = rest.deep_view();
        let x = rest.remove(0);
        proof {
            assert(x == prev_rows[0]);
            assert(prev[0] == prev_rows[0].deep_view());
            assert(x@ == s[i as int]);
            assert forall|k: int| 0 <= k < rest@.len() implies #[trigger] rest.deep_view()[k]
                == prev[k + 1] by {
                assert(rest@[k] == prev_rows[k + 1]);
            }
            assert(rest.deep_view() =~= s.subrange(i + 1, s.len() as int));
            assert(s.subrange(0, i + 1).drop_last() =~= s.subrange(0, i as int));
            assert(s.subrange(0, i + 1).last() == s[i as int]);
        }
        out = insert_sorted(out, x);
        i = i + 1;
    }
    proof {
        assert(s.subrange(0, s.len() as int) =~= s);
    }
    out
}

} // verus!
