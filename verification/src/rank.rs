//! Deduplication by text content and Reciprocal Rank Fusion of a vector
//! result list with a full-text result list.

use vstd::prelude::*;

use crate::record::{copy_page_number, Record, RecordV, Score, SearchResult, SearchResultV};
use crate::text::{basename, basename_of};

verus! {

/// Reciprocal Rank Fusion constant: a row at 1-based rank `r` contributes
/// `1 / (r + RRF_K)` to its id's score.
pub const RRF_K: u64 = 60;

/// Largest accepted length of one raw result list; keeps the exact fused
/// score arithmetic inside `u64`.
pub const MAX_RESULT_ROWS: usize = 2000000000;

/// Some row of `rows` holds exactly the text `t`.
pub open spec fn contains_text(rows: Seq<RecordV>, t: Seq<char>) -> bool {
    exists|i: int| 0 <= i < rows.len() && rows[i].text == t
}

/// Index of the first row of `rows` whose text is `t`; `-1` when there is none.
pub open spec fn first_text_index(rows: Seq<RecordV>, t: Seq<char>) -> int
    decreases rows.len(),
{
    if rows.len() == 0 {
        -1
    } else if rows[0].text == t {
        0
    } else {
        let r = first_text_index(rows.drop_first(), t);
        if r == -1 {
            -1
        } else {
            r + 1
        }
    }
}

pub proof fn lemma_first_text_index(rows: Seq<RecordV>, t: Seq<char>)
    ensures
        contains_text(rows, t) ==> {
            let f = first_text_index(rows, t);
            &&& 0 <= f < rows.len()
            &&& rows[f].text == t
            &&& forall|k: int| 0 <= k < f ==> (#[trigger] rows[k]).text != t
        },
        !contains_text(rows, t) ==> first_text_index(rows, t) == -1,
    decreases rows.len(),
{
    if rows.len() > 0 {
        let rest = rows.drop_first();
        lemma_first_text_index(rest, t);
        if rows[0].text != t {
            assert forall|i: int| 0 <= i < rest.len() implies rest[i] == rows[i + 1] by {}
            if contains_text(rows, t) {
                let w = choose|i: int| 0 <= i < rows.len() && rows[i].text == t;
                assert(rest[w - 1].text == t);
                assert(contains_text(rest, t));
                let f = first_text_index(rest, t);
                assert forall|k: int| 0 <= k < f + 1 implies (#[trigger] rows[k]).text != t by {
                    if k > 0 {
                        assert(rows[k] == rest[k - 1]);
                    }
                }
            } else {
                assert(!contains_text(rest, t)) by {
                    if contains_text(rest, t) {
                        let w = choose|i: int| 0 <= i < rest.len() && rest[i].text == t;
                        assert(rows[w + 1].text == t);
                    }
                }
            }
        }
    }
}

/// A position that holds `t` with no earlier occurrence is the first index.
pub proof fn lemma_first_text_index_unique(rows: Seq<RecordV>, j: int)
    requires
        0 <= j < rows.len(),
        forall|k: int| 0 <= k < j ==> (#[trigger] rows[k]).text != rows[j].text,
    ensures
        first_text_index(rows, rows[j].text) == j,
{
    let t = rows[j].text;
    assert(contains_text(rows, t));
    lemma_first_text_index(rows, t);
    let f = first_text_index(rows, t);
    if f < j {
        assert(rows[f].text != t);
    }
    if f > j {
        assert(rows[j].text != t);
    }
}

/// `rows` with every repeated text removed: the first row of each text stays,
/// later rows with the same text fall away, order kept.
pub open spec fn dedup_by_text_spec(rows: Seq<RecordV>) -> Seq<RecordV>
    decreases rows.len(),
{
    if rows.len() == 0 {
        Seq::empty()
    } else {
        let prefix = dedup_by_text_spec(rows.drop_last());
        if contains_text(rows.drop_last(), rows.last().text) {
            prefix
        } else {
            prefix.push(rows.last())
        }
    }
}

/// Deduplication keeps exactly the texts of its input.
pub proof fn lemma_dedup_same_texts(rows: Seq<RecordV>, t: Seq<char>)
    ensures
        contains_text(dedup_by_text_spec(rows), t) <==> contains_text(rows, t),
    decreases rows.len(),
{
    if rows.len() > 0 {
        let prefix_rows = rows.drop_last();
        lemma_dedup_same_texts(prefix_rows, t);
        let d = dedup_by_text_spec(rows);
        let dp = dedup_by_text_spec(prefix_rows);
        if contains_text(rows, t) {
            let w = choose|i: int| 0 <= i < rows.len() && rows[i].text == t;
            if w < rows.len() - 1 {
                assert(prefix_rows[w].text == t);
                assert(contains_text(prefix_rows, t));
                let u = choose|i: int| 0 <= i < dp.len() && dp[i].text == t;
                assert(d[u].text == t);
            } else {
                if contains_text(prefix_rows, t) {
                    let u = choose|i: int| 0 <= i < dp.len() && dp[i].text == t;
                    assert(d[u].text == t);
                } else {
                    assert(d.last().text == t);
                }
            }
        }
        if contains_text(d, t) {
            let w = choose|i: int| 0 <= i < d.len() && d[i].text == t;
            if contains_text(prefix_rows, rows.last().text) {
                assert(contains_text(dp, t));
            } else {
                if w < d.len() - 1 {
                    assert(dp[w].text == t);
                    assert(contains_text(dp, t));
                } else {
                    assert(rows.last().text == t);
                }
            }
            assert(contains_text(rows, t)) by {
                if contains_text(prefix_rows, t) {
                    let u = choose|i: int| 0 <= i < prefix_rows.len() && prefix_rows[i].text == t;
                    assert(rows[u].text == t);
                }
            }
        }
    }
}

/// Two rows with the same text collapse to one: after deduplication all texts
/// are distinct, and each surviving row is its text's first occurrence.
pub proof fn lemma_dedup_by_text_properties(rows: Seq<RecordV>)
    ensures
        forall|i: int, j: int|
            0 <= i < j < dedup_by_text_spec(rows).len() ==> (#[trigger] dedup_by_text_spec(
                rows,
            )[i]).text != (#[trigger] dedup_by_text_spec(rows)[j]).text,
        forall|i: int|
            0 <= i < dedup_by_text_spec(rows).len() ==> {
                let f = first_text_index(rows, (#[trigger] dedup_by_text_spec(rows)[i]).text);
                &&& 0 <= f < rows.len()
                &&& dedup_by_text_spec(rows)[i] == rows[f]
            },
    decreases rows.len(),
{
    if rows.len() > 0 {
        let prefix_rows = rows.drop_last();
        lemma_dedup_by_text_properties(prefix_rows);
        let d = dedup_by_text_spec(rows);
        let dp = dedup_by_text_spec(prefix_rows);
        assert forall|i: int| 0 <= i < d.len() implies {
            let f = first_text_index(rows, (#[trigger] d[i]).text);
            &&& 0 <= f < rows.len()
            &&& d[i] == rows[f]
        } by {
            if contains_text(prefix_rows, rows.last().text) || i < d.len() - 1 {
                assert(d[i] == dp[i]);
                let fp = first_text_index(prefix_rows, dp[i].text);
                lemma_first_text_index(prefix_rows, dp[i].text);
                assert(contains_text(prefix_rows, dp[i].text)) by {
                    lemma_dedup_same_texts(prefix_rows, dp[i].text);
                    assert(contains_text(dp, dp[i].text));
                }
                assert(rows[fp] == prefix_rows[fp]);
                assert forall|k: int| 0 <= k < fp implies (#[trigger] rows[k]).text != rows[fp].text
                    by {
                    assert(rows[k] == prefix_rows[k]);
                }
                lemma_first_text_index_unique(rows, fp);
            } else {
                assert(d[i] == rows.last());
                assert(!contains_text(prefix_rows, rows.last().text));
                assert forall|k: int| 0 <= k < rows.len() - 1 implies (#[trigger] rows[k]).text
                    != rows[rows.len() - 1].text by {
                    assert(rows[k] == prefix_rows[k]);
                }
                lemma_first_text_index_unique(rows, rows.len() - 1);
            }
        }
        assert forall|i: int, j: int| 0 <= i < j < d.len() implies (#[trigger] d[i]).text
            != (#[trigger] d[j]).text by {
            if contains_text(prefix_rows, rows.last().text) {
            } else {
                if j < d.len() - 1 {
                } else {
                    assert(d[i] == dp[i]);
                    assert(d[j] == rows.last());
                    lemma_dedup_same_texts(prefix_rows, dp[i].text);
                    assert(contains_text(dp, dp[i].text));
                }
            }
        }
    }
}

/// Decides whether some row of `rows` holds exactly the text `t`.
pub fn rows_contain_text(rows: &Vec<Record>, t: &String) -> (b: bool)
    ensures
        b == contains_text(rows.deep_view(), t@),
{
    let mut j: usize = 0;
    while j < rows.len()
        invariant
            j <= rows@.len(),
            forall|k: int| 0 <= k < j ==> (#[trigger] rows.deep_view()[k]).text != t@,
        decreases rows@.len() - j,
    {
        if rows[j].text == *t {
            proof {
                assert(rows.deep_view()[j as int].text == t@);
            }
            return true;
        }
        j = j + 1;
    }
    false
}

/// Keeps the first row of each text, in order, and drops later rows whose
/// text was already seen.
pub fn dedup_by_text(rows: Vec<Record>) -> (r: Vec<Record>)
    ensures
        r.deep_view() == dedup_by_text_spec(rows.deep_view()),
        r.deep_view().len() <= rows.deep_view().len(),
{
    let ghost s = rows.deep_view();
    proof {
        lemma_dedup_len(s);
    }
    let mut rest = rows;
    let mut out: Vec<Record> = Vec::new();
    let mut i: usize = 0;
    proof {
        vstd::std_specs::vec::axiom_spec_len(&rest);
        assert(s.len() == rest@.len());
        assert(out.deep_view() =~= dedup_by_text_spec(s.subrange(0, 0)));
    }
    while rest.len() > 0
        invariant
            s.len() <= usize::MAX,
            i + rest.len() == s.len(),
            rest.deep_view() =~= s.subrange(i as int, s.len() as int),
            out.deep_view() == dedup_by_text_spec(s.subrange(0, i as int)),
        decreases rest.len(),
    {
        let ghost prev_rows = rest@;
        let ghost prev = rest.deep_view();
        let x = rest.remove(0);
        proof {
            assert(x == prev_rows[0]);
            assert(prev[0] == prev_rows[0].deep_view());
            assert(x@ == s[i as int]);
            assert forall|k: int| 0 <= k < rest@.len() implies #[trigger] rest.deep_view()[k]
                == prev[k + 1] by {
                assert(rest@[k] == prev_rows[k + 1]);
            }
            assert(rest.deep_view() =~= s.subrange(i + 1, s.len() as int));
        }
        let seen = rows_contain_text(&out, &x.text);
        proof {
            lemma_dedup_same_texts(s.subrange(0, i as int), x@.text);
            assert(s.subrange(0, i + 1).drop_last() =~= s.subrange(0, i as int));
            assert(s.subrange(0, i + 1).last() == s[i as int]);
        }
        if !seen {
            out.push(x);
            proof {
                assert(out.deep_view() =~= dedup_by_text_spec(s.subrange(0, i as int)).push(
                    s[i as int],
                ));
            }
        }
        i = i + 1;
    }
    proof {
        assert(s.subrange(0, s.len() as int) =~= s);
    }
    out
}

/// Deduplication never lengthens a list.
pub proof fn lemma_dedup_len(rows: Seq<RecordV>)
    ensures
        dedup_by_text_spec(rows).len() <= rows.len(),
    decreases rows.len(),
{
    if rows.len() > 0 {
        lemma_dedup_len(rows.drop_last());
    }
}

/// Index of the first row of `rows` with id `id`; `-1` when there is none.
pub open spec fn first_id_index(rows: Seq<RecordV>, id: u128) -> int
    decreases rows.len(),
{
    if rows.len() == 0 {
        -1
    } else if rows[0].id == id {
        0
    } else {
        let r = first_id_index(rows.drop_first(), id);
        if r == -1 {
            -1
        } else {
            r + 1
        }
    }
}

pub proof fn lemma_first_id_index(rows: Seq<RecordV>, id: u128)
    ensures
        -1 <= first_id_index(rows, id) < rows.len(),
        first_id_index(rows, id) >= 0 ==> rows[first_id_index(rows, id)].id == id,
        forall|k: int|
            0 <= k < first_id_index(rows, id) ==> (#[trigger] rows[k]).id != id,
        first_id_index(rows, id) == -1 ==> forall|k: int|
            0 <= k < rows.len() ==> (#[trigger] rows[k]).id != id,
    decreases rows.len(),
{
    if rows.len() > 0 && rows[0].id != id {
        let rest = rows.drop_first();
        lemma_first_id_index(rest, id);
        let fr = first_id_index(rest, id);
        let f = first_id_index(rows, id);
        if fr == -1 {
            assert forall|k: int| 0 <= k < rows.len() implies (#[trigger] rows[k]).id != id by {
                if k > 0 {
                    assert(rows[k] == rest[k - 1]);
                }
            }
        } else {
            assert(rows[f] == rest[fr]);
            assert forall|k: int| 0 <= k < f implies (#[trigger] rows[k]).id != id by {
                if k > 0 {
                    assert(rows[k] == rest[k - 1]);
                }
            }
        }
    }
}

/// The fused score of id `id`, given the deduplicated vector list `dv` and
/// the deduplicated text list `dt`: `1 / (rank + RRF_K)` for its rank in each
/// list where it occurs, the two contributions added as exact fractions, and
/// `0` where it occurs in neither.
pub open spec fn rrf_score_of(id: u128, dv: Seq<RecordV>, dt: Seq<RecordV>) -> Score {
    let iv = first_id_index(dv, id);
    let it = first_id_index(dt, id);
    if iv >= 0 && it >= 0 {
        Score::Fused {
            num: (iv + it + 2 + 2 * RRF_K) as u64,
            den: ((iv + 1 + RRF_K) * (it + 1 + RRF_K)) as u64,
        }
    } else if iv >= 0 {
        Score::Fused { num: 1, den: (iv + 1 + RRF_K) as u64 }
    } else if it >= 0 {
        Score::Fused { num: 1, den: (it + 1 + RRF_K) as u64 }
    } else {
        Score::Fused { num: 0, den: 1 }
    }
}

/// A fused score is well-formed: its denominator is at least one.
pub proof fn lemma_rrf_score_wf(id: u128, dv: Seq<RecordV>, dt: Seq<RecordV>)
    requires
        dv.len() <= MAX_RESULT_ROWS,
        dt.len() <= MAX_RESULT_ROWS,
    ensures
        crate::record::score_wf(rrf_score_of(id, dv, dt)),
{
    lemma_first_id_index(dv, id);
    lemma_first_id_index(dt, id);
    let iv = first_id_index(dv, id);
    let it = first_id_index(dt, id);
    if iv >= 0 && it >= 0 {
        assert(1 <= (iv + 1 + RRF_K) * (it + 1 + RRF_K) <= 0xffff_ffff_ffff_ffff)
            by (nonlinear_arith)
            requires
                0 <= iv < 2000000001,
                0 <= it < 2000000001,
                RRF_K == 60,
        ;
    }
}

/// Finds the first row of `rows` with id `id`.
pub fn find_id(rows: &Vec<Record>, id: u128) -> (r: Option<usize>)
    ensures
        match r {
            Some(j) => j == first_id_index(rows.deep_view(), id),
            None => first_id_index(rows.deep_view(), id) == -1,
        },
{
    let ghost s = rows.deep_view();
    let mut j: usize = 0;
    while j < rows.len()
        invariant
            j <= s.len(),
            s == rows.deep_view(),
            forall|k: int| 0 <= k < j ==> (#[trigger] s[k]).id != id,
        decreases s.len() - j,
    {
        if rows[j].id == id {
            proof {
                lemma_first_id_index(s, id);
                assert(s[j as int].id == id);
                let f = first_id_index(s, id);
                if f < j {
                    assert(s[f].id != id);
                }
            }
            return Some(j);
        }
        proof {
            assert(s[j as int].id != id);
        }
        j = j + 1;
    }
    proof {
        lemma_first_id_index(s, id);
        let f = first_id_index(s, id);
        if f >= 0 {
            assert(s[f].id != id);
        }
    }
    None
}

/// Computes the fused score of `id` against the two deduplicated lists.
pub fn rrf_score(id: u128, dv: &Vec<Record>, dt: &Vec<Record>) -> (s: Score)
    requires
        dv@.len() <= MAX_RESULT_ROWS,
        dt@.len() <= MAX_RESULT_ROWS,
    ensures
        s == rrf_score_of(id, dv.deep_view(), dt.deep_view()),
{
    let iv = find_id(dv, id);
    let it = find_id(dt, id);
    proof {
        lemma_first_id_index(dv.deep_view(), id);
        lemma_first_id_index(dt.deep_view(), id);
    }
    match (iv, it) {
        (Some(v), Some(t)) => {
            let dv_part: u64 = v as u64 + 1 + RRF_K;
            let dt_part: u64 = t as u64 + 1 + RRF_K;
            proof {
                assert(dv_part * dt_part <= 0xffff_ffff_ffff_ffff) by (nonlinear_arith)
                    requires
                        0 < dv_part < 2000000062,
                        0 < dt_part < 2000000062,
                ;
            }
            Score::Fused { num: dv_part + dt_part, den: dv_part * dt_part }
        },
        (Some(v), None) => Score::Fused { num: 1, den: v as u64 + 1 + RRF_K },
        (None, Some(t)) => Score::Fused { num: 1, den: t as u64 + 1 + RRF_K },
        (None, None) => Score::Fused { num: 0, den: 1 },
    }
}

/// The search result built from a stored row: the result's file path is the
/// row's stored file path, its file name the path's last component.
pub open spec fn result_of(r: RecordV, s: Score) -> SearchResultV {
    SearchResultV {
        id: r.id,
        file_name: basename_of(r.file_name),
        file_path: r.file_name,
        page_number: r.page_number,
        text: r.text,
        score: s,
    }
}

/// Builds the search result of one row.
pub fn make_result(r: &Record, s: Score) -> (res: SearchResult)
    ensures
        res@ == result_of(r@, s),
{
    SearchResult {
        id: r.id,
        file_name: basename(r.file_name.as_str()),
        file_path: r.file_name.clone(),
        page_number: copy_page_number(&r.page_number),
        text: r.text.clone(),
        score: s,
    }
}

/// Some result of `results` holds exactly the text `t`.
pub open spec fn results_contain_text(results: Seq<SearchResultV>, t: Seq<char>) -> bool {
    exists|i: int| 0 <= i < results.len() && results[i].text == t
}

/// The fused result list over the combined candidate list `c`: each row whose
/// text was not emitted before becomes one result carrying the fused score of
/// its id; later rows with an already-emitted text fall away.
pub open spec fn merge_results(c: Seq<RecordV>, dv: Seq<RecordV>, dt: Seq<RecordV>) -> Seq<
    SearchResultV,
>
    decreases c.len(),
{
    if c.len() == 0 {
        Seq::empty()
    } else {
        let prefix = merge_results(c.drop_last(), dv, dt);
        if contains_text(c.drop_last(), c.last().text) {
            prefix
        } else {
            prefix.push(result_of(c.last(), rrf_score_of(c.last().id, dv, dt)))
        }
    }
}

/// The merged results hold exactly the texts of the candidate list.
pub proof fn lemma_merge_same_texts(c: Seq<RecordV>, dv: Seq<RecordV>, dt: Seq<RecordV>, t: Seq<
    char,
>)
    ensures
        results_contain_text(merge_results(c, dv, dt), t) <==> contains_text(c, t),
    decreases c.len(),
{
    if c.len() > 0 {
        let prefix_rows = c.drop_last();
        lemma_merge_same_texts(prefix_rows, dv, dt, t);
        let m = merge_results(c, dv, dt);
        let mp = merge_results(prefix_rows, dv, dt);
        if contains_text(c, t) {
            let w = choose|i: int| 0 <= i < c.len() && c[i].text == t;
            if w < c.len() - 1 {
                assert(prefix_rows[w].text == t);
                assert(contains_text(prefix_rows, t));
                let u = choose|i: int| 0 <= i < mp.len() && mp[i].text == t;
                assert(m[u].text == t);
            } else {
                if contains_text(prefix_rows, t) {
                    let u = choose|i: int| 0 <= i < mp.len() && mp[i].text == t;
                    assert(m[u].text == t);
                } else {
                    assert(m.last().text == t);
                }
            }
        }
        if results_contain_text(m, t) {
            let w = choose|i: int| 0 <= i < m.len() && m[i].text == t;
            if contains_text(prefix_rows, c.last().text) {
                assert(results_contain_text(mp, t));
            } else {
                if w < m.len() - 1 {
                    assert(mp[w].text == t);
                    assert(results_contain_text(mp, t));
                } else {
                    assert(c.last().text == t);
                }
            }
            assert(contains_text(c, t)) by {
                if contains_text(prefix_rows, t) {
                    let u = choose|i: int| 0 <= i < prefix_rows.len() && prefix_rows[i].text == t;
                    assert(c[u].text == t);
                }
            }
        }
    }
}

/// Every merged result is built from some candidate row.
pub proof fn lemma_merge_origin(c: Seq<RecordV>, dv: Seq<RecordV>, dt: Seq<RecordV>)
    ensures
        forall|i: int|
            0 <= i < merge_results(c, dv, dt).len() ==> exists|k: int|
                0 <= k < c.len() && #[trigger] merge_results(c, dv, dt)[i] == result_of(
                    c[k],
                    rrf_score_of(c[k].id, dv, dt),
                ),
    decreases c.len(),
{
    if c.len() > 0 {
        let prefix_rows = c.drop_last();
        lemma_merge_origin(prefix_rows, dv, dt);
        let m = merge_results(c, dv, dt);
        let mp = merge_results(prefix_rows, dv, dt);
        assert forall|i: int| 0 <= i < m.len() implies exists|k: int|
            0 <= k < c.len() && #[trigger] m[i] == result_of(
                c[k],
                rrf_score_of(c[k].id, dv, dt),
            ) by {
            if i < mp.len() {
                let k = choose|k: int|
                    0 <= k < prefix_rows.len() && mp[i] == result_of(
                        prefix_rows[k],
                        rrf_score_of(prefix_rows[k].id, dv, dt),
                    );
                assert(c[k] == prefix_rows[k]);
                assert(m[i] == result_of(c[k], rrf_score_of(c[k].id, dv, dt)));
            } else {
                assert(m[i] == result_of(c[c.len() - 1], rrf_score_of(c[c.len() - 1].id, dv, dt)));
            }
        }
    }
}

/// Decides whether some already-built result holds exactly the text `t`.
fn results_have_text(results: &Vec<SearchResult>, t: &String) -> (b: bool)
    ensures
        b == results_contain_text(results.deep_view(), t@),
{
    let mut j: usize = 0;
    while j < results.len()
        invariant
            j <= results@.len(),
            forall|k: int| 0 <= k < j ==> (#[trigger] results.deep_view()[k]).text != t@,
        decreases results@.len() - j,
    {
        if results[j].text == *t {
            proof {
                assert(results.deep_view()[j as int].text == t@);
            }
            return true;
        }
        j = j + 1;
    }
    false
}

/// Merges the two deduplicated lists, vector results first, emitting one
/// result per distinct text with its fused score, then in the caller's hands
/// sorted by that score.
pub fn fuse_rows(dv: &Vec<Record>, dt: &Vec<Record>) -> (out: Vec<SearchResult>)
    requires
        dv@.len() <= MAX_RESULT_ROWS,
        dt@.len() <= MAX_RESULT_ROWS,
    ensures
        out.deep_view() == merge_results(
            dv.deep_view() + dt.deep_view(),
            dv.deep_view(),
            dt.deep_view(),
        ),
{
    let ghost dvv = dv.deep_view();
    let ghost dtv = dt.deep_view();
    let ghost c = dvv + dtv;
    let mut out: Vec<SearchResult> = Vec::new();
    let n_v = dv.len();
    let n_t = dt.len();
    let mut i: usize = 0;
    proof {
        assert(out.deep_view() =~= merge_results(c.subrange(0, 0), dvv, dtv));
    }
    while i < n_v + n_t
        invariant
            n_v == dvv.len(),
            n_t == dtv.len(),
            n_v + n_t <= usize::MAX,
            i <= n_v + n_t,
            c == dvv + dtv,
            dvv == dv.deep_view(),
            dtv == dt.deep_view(),
            dvv.len() <= MAX_RESULT_ROWS,
            dtv.len() <= MAX_RESULT_ROWS,
            out.deep_view() == merge_results(c.subrange(0, i as int), dvv, dtv),
        decreases n_v + n_t - i,
    {
        let row: &Record = if i < n_v {
            &dv[i]
        } else {
            &dt[i - n_v]
        };
        proof {
            assert(row@ == c[i as int]);
        }
        let seen = results_have_text(&out, &row.text);
        proof {
            lemma_merge_same_texts(c.subrange(0, i as int), dvv, dtv, row@.text);
            assert(c.subrange(0, i + 1).drop_last() =~= c.subrange(0, i as int));
            assert(c.subrange(0, i + 1).last() == c[i as int]);
        }
        if !seen {
            let score = rrf_score(row.id, dv, dt);
            let res = make_result(row, score);
            out.push(res);
            proof {
                assert(out.deep_view() =~= merge_results(c.subrange(0, i as int), dvv, dtv).push(
                    result_of(c[i as int], rrf_score_of(c[i as int].id, dvv, dtv)),
                ));
            }
        }
        i = i + 1;
    }
    proof {
        assert(c.subrange(0, c.len() as int) =~= c);
    }
    out
}

} // verus!
