//! The hybrid search pipeline: workspace and context filtering of the raw
//! result lists, deduplication, Reciprocal Rank Fusion, sorting, optional
//! re-scoring with keys from an external re-ranker, and the minimum-length
//! post-filter.

use vstd::prelude::*;
use vstd::seq_lib::group_to_multiset_ensures;

use crate::rank::{
    dedup_by_text, dedup_by_text_spec, first_text_index, fuse_rows, lemma_dedup_by_text_properties,
    lemma_first_text_index, lemma_merge_origin, merge_results, result_of, rrf_score_of,
    MAX_RESULT_ROWS,
};
use crate::record::{Record, RecordV, Score, SearchResult, SearchResultV};
use crate::Error;
use crate::sort::{sort_by_score, sort_results};

verus! {

/// Results whose text is this many characters or shorter fall out of the
/// final result list.
pub const MIN_TEXT_CHARS: usize = 300;

/// How a search limit request is resolved: thirty candidates unless the
/// caller asks for a number of its own.
pub const DEFAULT_LIMIT: usize = 30;

/// The row belongs to the queried workspace and, where a context file list
/// is given, to one of the listed files.
pub open spec fn row_matches_filter(r: RecordV, w: Seq<char>, ctx: Seq<Seq<char>>) -> bool {
    r.workspace_name == w && (ctx.len() == 0 || ctx.contains(r.file_name))
}

/// The rows of `rows` that match the workspace filter, in order.
pub open spec fn matching_rows(rows: Seq<RecordV>, w: Seq<char>, ctx: Seq<Seq<char>>) -> Seq<
    RecordV,
> {
    rows.filter(|r: RecordV| row_matches_filter(r, w, ctx))
}

/// The results whose text is longer than [`MIN_TEXT_CHARS`], in order.
pub open spec fn long_results(results: Seq<SearchResultV>) -> Seq<SearchResultV> {
    results.filter(|r: SearchResultV| r.text.len() > MIN_TEXT_CHARS)
}

/// The fused, sorted candidate list of a search, before the length filter:
/// both raw lists are filtered to the workspace, deduplicated by text, merged
/// with fused scores, and sorted by score, largest first.
pub open spec fn fused_ranked(
    v: Seq<RecordV>,
    t: Seq<RecordV>,
    w: Seq<char>,
    ctx: Seq<Seq<char>>,
) -> Seq<SearchResultV> {
    let dv = dedup_by_text_spec(matching_rows(v, w, ctx));
    let dt = dedup_by_text_spec(matching_rows(t, w, ctx));
    sort_by_score(merge_results(dv + dt, dv, dt))
}

/// The full result list of a search without re-ranking.
pub open spec fn search_spec(
    v: Seq<RecordV>,
    t: Seq<RecordV>,
    w: Seq<char>,
    ctx: Seq<Seq<char>>,
) -> Seq<SearchResultV> {
    long_results(fused_ranked(v, t, w, ctx))
}

/// Every element a filter keeps is an element of the filtered sequence.
pub proof fn lemma_filter_is_subset<A>(s: Seq<A>, pred: spec_fn(A) -> bool)
    ensures
        forall|k: int|
            0 <= k < s.filter(pred).len() ==> s.contains(#[trigger] s.filter(pred)[k]),
    decreases s.len(),
{
    reveal(Seq::filter);
    if s.len() > 0 {
        let prefix = s.drop_last();
        lemma_filter_is_subset(prefix, pred);
        assert forall|k: int| 0 <= k < s.filter(pred).len() implies s.contains(
            #[trigger] s.filter(pred)[k],
        ) by {
            let f = s.filter(pred);
            let fp = prefix.filter(pred);
            if k < fp.len() {
                assert(f[k] == fp[k]);
                assert(prefix.contains(fp[k]));
                let m = choose|m: int| 0 <= m < prefix.len() && prefix[m] == fp[k];
                assert(s[m] == fp[k]);
            } else {
                assert(f[k] == s.last());
                assert(s[s.len() - 1] == s.last());
            }
        }
    }
}

/// Decides whether `list` holds a string equal to `s`.
pub fn contains_string(list: &Vec<String>, s: &String) -> (b: bool)
    ensures
        b == list.deep_view().contains(s@),
{
    let mut j: usize = 0;
    while j < list.len()
        invariant
            j <= list@.len(),
            forall|k: int| 0 <= k < j ==> #[trigger] list.deep_view()[k] != s@,
        decreases list@.len() - j,
    {
        if list[j] == *s {
            proof {
                assert(list.deep_view()[j as int] == s@);
            }
            return true;
        }
        proof {
            assert(list.deep_view()[j as int] == list@[j as int]@);
        }
        j = j + 1;
    }
    proof {
        if list.deep_view().contains(s@) {
            let k = choose|k: int| 0 <= k < list.deep_view().len() && list.deep_view()[k] == s@;
            assert(list.deep_view()[k] != s@);
        }
    }
    false
}

/// Keeps the rows of the queried workspace and, where `context_files` is
/// non-empty, only those of the listed files.
pub fn filter_rows(rows: Vec<Record>, workspace_name: &String, context_files: &Vec<String>) -> (r:
    Vec<Record>)
    ensures
        r.deep_view() == matching_rows(rows.deep_view(), workspace_name@, context_files.deep_view()),
        r.deep_view().len() <= rows.deep_view().len(),
{
    let ghost s = rows.deep_view();
    let ghost w = workspace_name@;
    let ghost ctx = context_files.deep_view();
    let ghost pred = |rv: RecordV| row_matches_filter(rv, w, ctx);
    let mut rest = rows;
    let mut out: Vec<Record> = Vec::new();
    let mut i: usize = 0;
    proof {
        vstd::std_specs::vec::axiom_spec_len(&rest);
        assert(s.len() == rest@.len());
        reveal(Seq::filter);
        assert(out.deep_view() =~= s.subrange(0, 0).filter(pred));
        s.lemma_filter_len(pred);
    }
    while rest.len() > 0
        invariant
            s.len() <= usize::MAX,
            i + rest.len() == s.len(),
            rest.deep_view() =~= s.subrange(i as int, s.len() as int),
            out.deep_view() == s.subrange(0, i as int).filter(pred),
            pred == (|rv: RecordV| row_matches_filter(rv, w, ctx)),
            w == workspace_name@,
            ctx == context_files.deep_view(),
        decreases rest.len(),
    {
        let ghost prev_rows = rest@;
        let ghost prev = rest.deep_view();
        let x = rest.remove(0);
        proof {
            assert(x == prev_rows[0]);
            assert(prev[0] == prev_rows[0].deep_view());
            assert(x@ == s[i as int]);
            assert forall|k: int| 0 <= k < rest@.len() implies #[trigger] rest.deep_view()[k]
                == prev[k + 1] by {
                assert(rest@[k] == prev_rows[k + 1]);
            }
            assert(rest.deep_view() =~= s.subrange(i + 1, s.len() as int));
        }
        let in_workspace = x.workspace_name == *workspace_name;
        let in_context = context_files.len() == 0 || contains_string(context_files, &x.file_name);
        proof {
            reveal(Seq::filter);
            assert(s.subrange(0, i + 1).drop_last() =~= s.subrange(0, i as int));
            assert(s.subrange(0, i + 1).last() == s[i as int]);
            assert((in_workspace && in_context) == pred(x@));
            s.subrange(0, i as int).lemma_filter_len(pred);
        }
        if in_workspace && in_context {
            out.push(x);
            proof {
                assert(out.deep_view() =~= s.subrange(0, i as int).filter(pred).push(s[i as int]));
            }
        }
        i = i + 1;
    }
    proof {
        assert(s.subrange(0, s.len() as int) =~= s);
        s.lemma_filter_len(pred);
    }
    out
}

/// Keeps the results whose text is longer than [`MIN_TEXT_CHARS`] characters,
/// in order. This filter runs last, after fusion and any re-ranking.
pub fn finalize_results(results: Vec<SearchResult>) -> (r: Vec<SearchResult>)
    ensures
        r.deep_view() == long_results(results.deep_view()),
{
    let ghost s = results.deep_view();
    let ghost pred = |rv: SearchResultV| rv.text.len() > MIN_TEXT_CHARS;
    let mut rest = results;
    let mut out: Vec<SearchResult> = Vec::new();
    let mut i: usize = 0;
    proof {
        vstd::std_specs::vec::axiom_spec_len(&rest);
        assert(s.len() == rest@.len());
        reveal(Seq::filter);
        assert(out.deep_view() =~= s.subrange(0, 0).filter(pred));
    }
    while rest.len() > 0
        invariant
            s.len() <= usize::MAX,
            i + rest.len() == s.len(),
            rest.deep_view() =~= s.subrange(i as int, s.len() as int),
            out.deep_view() == s.subrange(0, i as int).filter(pred),
            pred == (|rv: SearchResultV| rv.text.len() > MIN_TEXT_CHARS),
        decreases rest.len(),
    {
        let ghost prev_rows = rest@;
        let ghost prev = rest.deep_view();
        let x = rest.remove(0);
        proof {
            assert(x == prev_rows[0]);
            assert(prev[0] == prev_rows[0].deep_view());
            assert(x@ == s[i as int]);
            assert forall|k: int| 0 <= k < rest@.len() implies #[trigger] rest.deep_view()[k]
                == prev[k + 1] by {
                assert(rest@[k] == prev_rows[k + 1]);
            }
            assert(rest.deep_view() =~= s.subrange(i + 1, s.len() as int));
        }
        let keep = x.text.as_str().unicode_len() > MIN_TEXT_CHARS;
        proof {
            reveal(Seq::filter);
            assert(s.subrange(0, i + 1).drop_last() =~= s.subrange(0, i as int));
            assert(s.subrange(0, i + 1).last() == s[i as int]);
            assert(keep == pred(x@));
        }
        if keep {
            out.push(x);
            proof {
                assert(out.deep_view() =~= s.subrange(0, i as int).filter(pred).push(s[i as int]));
            }
        }
        i = i + 1;
    }
    proof {
        assert(s.subrange(0, s.len() as int) =~= s);
    }
    out
}

/// The results with each score replaced by the re-ranker key of the same
/// position.
pub open spec fn rescored(results: Seq<SearchResultV>, keys: Seq<i64>) -> Seq<SearchResultV> {
    Seq::new(
        results.len(),
        |i: int|
            SearchResultV {
                id: results[i].id,
                file_name: results[i].file_name,
                file_path: results[i].file_path,
                page_number: results[i].page_number,
                text: results[i].text,
                score: Score::Reranked { key: keys[i] },
            },
    )
}

/// Overwrites each result's score with the re-ranker key of the same
/// position and re-sorts, largest key first. The re-ranker owes one score per
/// candidate; a list of any other length is a failed re-ranking.
pub fn apply_rerank(results: Vec<SearchResult>, keys: &Vec<i64>) -> (r: Result<
    Vec<SearchResult>,
    Error,
>)
    ensures
        keys@.len() == results.deep_view().len() ==> r is Ok && r->Ok_0.deep_view()
            == sort_by_score(rescored(results.deep_view(), keys@)),
        keys@.len() != results.deep_view().len() ==> r is Err && r->Err_0
            == Error::RerankFailure,
{
    let ghost s = results.deep_view();
    if keys.len() != results.len() {
        proof {
            vstd::std_specs::vec::axiom_spec_len(keys);
            vstd::std_specs::vec::axiom_spec_len(&results);
        }
        return Err(Error::RerankFailure);
    }
    let mut rest = results;
    let mut scored: Vec<SearchResult> = Vec::new();
    let mut i: usize = 0;
    proof {
        vstd::std_specs::vec::axiom_spec_len(&rest);
        assert(s.len() == rest@.len());
        assert(scored.deep_view() =~= rescored(s, keys@).subrange(0, 0));
    }
    while rest.len() > 0
        invariant
            s.len() <= usize::MAX,
            i + rest.len() == s.len(),
            keys@.len() == s.len(),
            rest.deep_view() =~= s.subrange(i as int, s.len() as int),
            scored.deep_view() == rescored(s, keys@).subrange(0, i as int),
        decreases rest.len(),
    {
        let ghost prev_rows = rest@;
        let ghost prev = rest.deep_view();
        let x = rest.remove(0);
        proof {
            assert(x == prev_rows[0]);
            assert(prev[0] == prev_rows[0].deep_view());
            assert(x@ == s[i as int]);
            assert forall|k: int| 0 <= k < rest@.len() implies #[trigger] rest.deep_view()[k]
                == prev[k + 1] by {
                assert(rest@[k] == prev_rows[k + 1]);
            }
            assert(rest.deep_view() =~= s.subrange(i + 1, s.len() as int));
        }
        let key = keys[i];
        let rescored_one = SearchResult {
            id: x.id,
            file_name: x.file_name,
            file_path: x.file_path,
            page_number: x.page_number,
            text: x.text,
            score: Score::Reranked { key },
        };
        let ghost prev_scored_rows = scored@;
        let ghost prev_scored = scored.deep_view();
        scored.push(rescored_one);
        proof {
            let target = rescored(s, keys@);
            assert(prev_scored == target.subrange(0, i as int));
            assert(prev_scored.len() == i);
            assert(prev_scored_rows.len() == i);
            assert(scored@.len() == i + 1);
            assert(rescored_one@ == target[i as int]);
            assert forall|k: int| 0 <= k < scored@.len() implies #[trigger] scored.deep_view()[k]
                == target.subrange(0, i + 1)[k] by {
                if k < prev_scored_rows.len() {
                    assert(scored@[k] == prev_scored_rows[k]);
                    assert(prev_scored[k] == prev_scored_rows[k].deep_view());
                    assert(prev_scored[k] == target[k]);
                } else {
                    assert(scored@[k] == rescored_one);
                }
            }
            assert(scored.deep_view() =~= target.subrange(0, i + 1));
        }
        i = i + 1;
    }
    proof {
        assert(rescored(s, keys@).subrange(0, s.len() as int) =~= rescored(s, keys@));
    }
    Ok(sort_results(scored))
}

/// The fused, sorted candidate list of a search: filters both raw result
/// lists to the queried workspace and context files, deduplicates each by
/// text, fuses them with Reciprocal Rank Fusion, and sorts by fused score.
/// The caller hands these candidates to the re-ranker or on to
/// [`finalize_results`].
pub fn fuse_search_results(
    workspace_name: &String,
    context_files: &Vec<String>,
    vector_rows: Vec<Record>,
    text_rows: Vec<Record>,
) -> (out: Vec<SearchResult>)
    requires
        vector_rows@.len() <= MAX_RESULT_ROWS,
        text_rows@.len() <= MAX_RESULT_ROWS,
    ensures
        out.deep_view() == fused_ranked(
            vector_rows.deep_view(),
            text_rows.deep_view(),
            workspace_name@,
            context_files.deep_view(),
        ),
{
    proof {
        vstd::std_specs::vec::axiom_spec_len(&vector_rows);
        vstd::std_specs::vec::axiom_spec_len(&text_rows);
    }
    let vf = filter_rows(vector_rows, workspace_name, context_files);
    let tf = filter_rows(text_rows, workspace_name, context_files);
    let dv = dedup_by_text(vf);
    let dt = dedup_by_text(tf);
    proof {
        vstd::std_specs::vec::axiom_spec_len(&dv);
        vstd::std_specs::vec::axiom_spec_len(&dt);
    }
    let fused = fuse_rows(&dv, &dt);
    sort_results(fused)
}

/// The whole search pipeline without re-ranking: fuses the two raw result
/// lists and drops every result of [`MIN_TEXT_CHARS`] or fewer characters.
/// Empty inputs yield an empty result list.
pub fn search(
    workspace_name: &String,
    context_files: &Vec<String>,
    vector_rows: Vec<Record>,
    text_rows: Vec<Record>,
) -> (out: Vec<SearchResult>)
    requires
        vector_rows@.len() <= MAX_RESULT_ROWS,
        text_rows@.len() <= MAX_RESULT_ROWS,
    ensures
        out.deep_view() == search_spec(
            vector_rows.deep_view(),
            text_rows.deep_view(),
            workspace_name@,
            context_files.deep_view(),
        ),
{
    let fused = fuse_search_results(workspace_name, context_files, vector_rows, text_rows);
    finalize_results(fused)
}

/// A subsequence taken out of a sorted list is sorted: the length filter
/// keeps the ranking order.
proof fn lemma_long_results_sorted(s: Seq<SearchResultV>)
    requires
        crate::sort::sorted_by_score(s),
    ensures
        crate::sort::sorted_by_score(long_results(s)),
    decreases s.len(),
{
    reveal(Seq::filter);
    let pred = |rv: SearchResultV| rv.text.len() > MIN_TEXT_CHARS;
    if s.len() > 0 {
        let prefix = s.drop_last();
        assert forall|i: int, j: int| 0 <= i <= j < prefix.len() implies crate::record::score_ge(
            (#[trigger] prefix[i]).score,
            (#[trigger] prefix[j]).score,
        ) by {
            assert(prefix[i] == s[i] && prefix[j] == s[j]);
        }
        lemma_long_results_sorted(prefix);
        if pred(s.last()) {
            let f = s.filter(pred);
            let fp = prefix.filter(pred);
            assert(f =~= fp.push(s.last()));
            lemma_filter_is_subset(prefix, pred);
            assert forall|i: int, j: int| 0 <= i <= j < f.len() implies crate::record::score_ge(
                (#[trigger] f[i]).score,
                (#[trigger] f[j]).score,
            ) by {
                if j == f.len() - 1 && i < j {
                    assert(f[i] == fp[i]);
                    assert(prefix.contains(fp[i]));
                    let m = choose|m: int| 0 <= m < prefix.len() && prefix[m] == fp[i];
                    assert(s[m] == f[i]);
                    assert(crate::record::score_ge(s[m].score, s[s.len() - 1].score));
                }
            }
        }
    }
}

/// Every fused score of the merged candidates is well-formed.
proof fn lemma_merged_scores_wf(dv: Seq<RecordV>, dt: Seq<RecordV>)
    requires
        dv.len() <= MAX_RESULT_ROWS,
        dt.len() <= MAX_RESULT_ROWS,
    ensures
        crate::sort::all_scores_wf(merge_results(dv + dt, dv, dt)),
{
    let merged = merge_results(dv + dt, dv, dt);
    lemma_merge_origin(dv + dt, dv, dt);
    assert forall|i: int| 0 <= i < merged.len() implies crate::record::score_wf(
        (#[trigger] merged[i]).score,
    ) by {
        let c = dv + dt;
        let k = choose|k: int|
            0 <= k < c.len() && merged[i] == result_of(c[k], rrf_score_of(c[k].id, dv, dt));
        crate::rank::lemma_rrf_score_wf(c[k].id, dv, dt);
    }
}

/// The search's result list is ordered by score, largest first, both before
/// and after the length filter.
pub proof fn lemma_search_results_sorted(
    v: Seq<RecordV>,
    t: Seq<RecordV>,
    w: Seq<char>,
    ctx: Seq<Seq<char>>,
)
    requires
        v.len() <= MAX_RESULT_ROWS,
        t.len() <= MAX_RESULT_ROWS,
    ensures
        crate::sort::sorted_by_score(fused_ranked(v, t, w, ctx)),
        crate::sort::sorted_by_score(search_spec(v, t, w, ctx)),
{
    let vf = matching_rows(v, w, ctx);
    let tf = matching_rows(t, w, ctx);
    v.lemma_filter_len(|r: RecordV| row_matches_filter(r, w, ctx));
    t.lemma_filter_len(|r: RecordV| row_matches_filter(r, w, ctx));
    crate::rank::lemma_dedup_len(vf);
    crate::rank::lemma_dedup_len(tf);
    let dv = dedup_by_text_spec(vf);
    let dt = dedup_by_text_spec(tf);
    lemma_merged_scores_wf(dv, dt);
    crate::sort::lemma_sort_by_score_sorted(merge_results(dv + dt, dv, dt));
    lemma_long_results_sorted(fused_ranked(v, t, w, ctx));
}

/// Workspace isolation: every result of a search traces back to a raw row of
/// the queried workspace (and of the context files, where given). Rows whose
/// stored workspace differs never reach the result list, however similar
/// their text.
pub proof fn lemma_search_workspace_isolation(
    v: Seq<RecordV>,
    t: Seq<RecordV>,
    w: Seq<char>,
    ctx: Seq<Seq<char>>,
)
    ensures
        forall|i: int|
            0 <= i < search_spec(v, t, w, ctx).len() ==> exists|r: RecordV|
                {
                    &&& (v.contains(r) || t.contains(r))
                    &&& #[trigger] row_matches_filter(r, w, ctx)
                    &&& r.workspace_name == w
                    &&& (#[trigger] search_spec(v, t, w, ctx)[i]).id == r.id
                    &&& search_spec(v, t, w, ctx)[i].text == r.text
                    &&& search_spec(v, t, w, ctx)[i].file_path == r.file_name
                },
{
    broadcast use group_to_multiset_ensures;

    let vf = matching_rows(v, w, ctx);
    let tf = matching_rows(t, w, ctx);
    let dv = dedup_by_text_spec(vf);
    let dt = dedup_by_text_spec(tf);
    let c = dv + dt;
    let merged = merge_results(c, dv, dt);
    let ranked = sort_by_score(merged);
    let out = search_spec(v, t, w, ctx);
    let pred = |rv: SearchResultV| rv.text.len() > MIN_TEXT_CHARS;
    lemma_filter_is_subset(ranked, pred);
    crate::sort::lemma_sort_by_score_permutes(merged);
    lemma_merge_origin(c, dv, dt);
    lemma_dedup_by_text_properties(vf);
    lemma_dedup_by_text_properties(tf);
    assert forall|i: int| 0 <= i < out.len() implies exists|r: RecordV|
        {
            &&& (v.contains(r) || t.contains(r))
            &&& #[trigger] row_matches_filter(r, w, ctx)
            &&& r.workspace_name == w
            &&& (#[trigger] out[i]).id == r.id
            &&& out[i].text == r.text
            &&& out[i].file_path == r.file_name
        } by {
        let x = out[i];
        assert(ranked.contains(x));
        assert(ranked.to_multiset().count(x) > 0);
        assert(merged.to_multiset().count(x) > 0);
        assert(merged.contains(x));
        let m = choose|m: int| 0 <= m < merged.len() && merged[m] == x;
        let k = choose|k: int|
            0 <= k < c.len() && merged[m] == result_of(c[k], rrf_score_of(c[k].id, dv, dt));
        let row = c[k];
        if k < dv.len() {
            assert(row == dv[k]);
            let f = first_text_index(vf, dv[k].text);
            assert(dv[k] == vf[f]);
            lemma_filter_is_subset(v, |r: RecordV| row_matches_filter(r, w, ctx));
            assert(v.contains(vf[f]));
            v.lemma_filter_pred(|r: RecordV| row_matches_filter(r, w, ctx), f);
            assert(row_matches_filter(row, w, ctx));
        } else {
            assert(row == dt[k - dv.len()]);
            let f = first_text_index(tf, dt[k - dv.len()].text);
            assert(dt[k - dv.len()] == tf[f]);
            lemma_filter_is_subset(t, |r: RecordV| row_matches_filter(r, w, ctx));
            assert(t.contains(tf[f]));
            t.lemma_filter_pred(|r: RecordV| row_matches_filter(r, w, ctx), f);
            assert(row_matches_filter(row, w, ctx));
        }
        assert(x == result_of(row, rrf_score_of(row.id, dv, dt)));
        assert(x.id == row.id && x.text == row.text && x.file_path == row.file_name);
    }
}

/// The full-text query is best-effort: where the engine failed it, the
/// search goes on with an empty text result list instead of failing. A
/// failed vector query, by contrast, fails the whole search.
pub fn text_results_or_empty(outcome: Result<Vec<Record>, Error>) -> (r: Vec<Record>)
    ensures
        match outcome {
            Ok(rows) => r == rows,
            Err(_) => r@.len() == 0,
        },
{
    match outcome {
        Ok(rows) => rows,
        Err(_) => Vec::new(),
    }
}

/// The candidate limit a caller's request resolves to.
pub fn effective_limit(limit: Option<usize>) -> (r: usize)
    ensures
        r == match limit {
            Some(l) => l,
            None => DEFAULT_LIMIT,
        },
{
    match limit {
        Some(l) => l,
        None => DEFAULT_LIMIT,
    }
}

} // verus!
