//! The record schema shared by ingest and query, the search-result type, and
//! the score attached to every result.

use vstd::prelude::*;

verus! {

/// One text chunk with its embedding, as handed to ingest.
pub struct EmbeddedChunk {
    /// Path of the source file, possibly still carrying verbatim markers.
    pub file_name: String,
    /// Page of the source file the chunk came from, where known.
    pub page_number: Option<String>,
    /// The chunk's text.
    pub text: String,
    /// The embedding, one bit pattern per component.
    pub vector: Vec<u32>,
}

/// Mathematical image of an [`EmbeddedChunk`].
pub struct EmbeddedChunkV {
    pub file_name: Seq<char>,
    pub page_number: Option<Seq<char>>,
    pub text: Seq<char>,
    pub vector: Seq<u32>,
}

impl View for EmbeddedChunk {
    type V = EmbeddedChunkV;

    open spec fn view(&self) -> EmbeddedChunkV {
        EmbeddedChunkV {
            file_name: self.file_name@,
            page_number: self.page_number.deep_view(),
            text: self.text@,
            vector: self.vector@,
        }
    }
}

impl DeepView for EmbeddedChunk {
    type V = EmbeddedChunkV;

    open spec fn deep_view(&self) -> EmbeddedChunkV {
        self.view()
    }
}

/// One stored row of the table.
pub struct Record {
    /// Unique row id assigned at ingest.
    pub id: u128,
    /// Name of the workspace the row belongs to.
    pub workspace_name: String,
    /// Root path of that workspace.
    pub workspace_path: String,
    /// Path of the source file, verbatim markers removed.
    pub file_name: String,
    /// Page of the source file, where known.
    pub page_number: Option<String>,
    /// The chunk's text; never empty for a stored row.
    pub text: String,
    /// The embedding; its length always equals the table's dimension.
    pub vector: Vec<u32>,
}

/// Mathematical image of a [`Record`].
pub struct RecordV {
    pub id: u128,
    pub workspace_name: Seq<char>,
    pub workspace_path: Seq<char>,
    pub file_name: Seq<char>,
    pub page_number: Option<Seq<char>>,
    pub text: Seq<char>,
    pub vector: Seq<u32>,
}

impl View for Record {
    type V = RecordV;

    open spec fn view(&self) -> RecordV {
        RecordV {
            id: self.id,
            workspace_name: self.workspace_name@,
            workspace_path: self.workspace_path@,
            file_name: self.file_name@,
            page_number: self.page_number.deep_view(),
            text: self.text@,
            vector: self.vector@,
        }
    }
}

impl DeepView for Record {
    type V = RecordV;

    open spec fn deep_view(&self) -> RecordV {
        self.view()
    }
}

/// Copies an embedding vector component by component.
pub fn copy_vector(v: &Vec<u32>) -> (r: Vec<u32>)
    ensures
        r@ == v@,
{
    let mut r: Vec<u32> = Vec::new();
    let mut i: usize = 0;
    while i < v.len()
        invariant
            i <= v.len(),
            r@ == v@.subrange(0, i as int),
        decreases v.len() - i,
    {
        r.push(v[i]);
        proof {
            assert(v@.subrange(0, i + 1) =~= v@.subrange(0, i as int).push(v@[i as int]));
        }
        i = i + 1;
    }
    proof {
        assert(v@.subrange(0, v@.len() as int) =~= v@);
    }
    r
}

/// Copies an optional page number.
pub fn copy_page_number(p: &Option<String>) -> (r: Option<String>)
    ensures
        r.deep_view() == p.deep_view(),
{
    match p {
        Some(s) => Some(s.clone()),
        None => None,
    }
}

impl Record {
    /// A field-by-field copy of the row.
    pub fn duplicate(&self) -> (r: Record)
        ensures
            r@ == self@,
    {
        Record {
            id: self.id,
            workspace_name: self.workspace_name.clone(),
            workspace_path: self.workspace_path.clone(),
            file_name: self.file_name.clone(),
            page_number: copy_page_number(&self.page_number),
            text: self.text.clone(),
            vector: copy_vector(&self.vector),
        }
    }
}

/// The score a search attaches to a result: either the exact Reciprocal Rank
/// Fusion value `num / den`, or an order-preserving key handed back by the
/// external re-ranker.
#[derive(Debug, Clone, Copy, PartialEq, Eq, Structural)]
pub enum Score {
    /// The exact fused score `num / den`.
    Fused { num: u64, den: u64 },
    /// An order-preserving encoding of the re-ranker's relevance score.
    Reranked { key: i64 },
}

/// A well-formed fused score has a positive denominator.
pub open spec fn score_wf(s: Score) -> bool {
    match s {
        Score::Fused { num, den } => den >= 1,
        Score::Reranked { .. } => true,
    }
}

/// Total order on scores, largest first. Fused scores compare as the exact
/// rationals they stand for; re-ranked keys compare as integers; a re-ranked
/// score sorts above any fused one, though a result list never mixes the two.
pub open spec fn score_ge(a: Score, b: Score) -> bool {
    match (a, b) {
        (Score::Fused { num: an, den: ad }, Score::Fused { num: bn, den: bd }) => an * bd >= bn
            * ad,
        (Score::Reranked { key: ak }, Score::Reranked { key: bk }) => ak >= bk,
        (Score::Reranked { .. }, Score::Fused { .. }) => true,
        (Score::Fused { .. }, Score::Reranked { .. }) => false,
    }
}

/// Decides `score_ge` on concrete scores.
pub fn score_cmp_ge(a: &Score, b: &Score) -> (r: bool)
    ensures
        r == score_ge(*a, *b),
{
    match (a, b) {
        (Score::Fused { num: an, den: ad }, Score::Fused { num: bn, den: bd }) => {
            proof {
                assert((*an as int) * (*bd as int) <= (u64::MAX as int) * (u64::MAX as int)
                    && (*bn as int) * (*ad as int) <= (u64::MAX as int) * (u64::MAX as int))
                    by (nonlinear_arith)
                    requires
                        *an <= u64::MAX,
                        *bd <= u64::MAX,
                        *bn <= u64::MAX,
                        *ad <= u64::MAX,
                ;
            }
            let left = (*an as u128) * (*bd as u128);
            let right = (*bn as u128) * (*ad as u128);
            left >= right
        },
        (Score::Reranked { key: ak }, Score::Reranked { key: bk }) => ak >= bk,
        (Score::Reranked { .. }, Score::Fused { .. }) => true,
        (Score::Fused { .. }, Score::Reranked { .. }) => false,
    }
}

/// `score_ge` is total: any two scores compare one way or the other.
pub proof fn lemma_score_ge_total(a: Score, b: Score)
    ensures
        score_ge(a, b) || score_ge(b, a),
{
}

/// `score_ge` is transitive on well-formed scores.
pub proof fn lemma_score_ge_trans(a: Score, b: Score, c: Score)
    requires
        score_wf(a),
        score_wf(b),
        score_wf(c),
        score_ge(a, b),
        score_ge(b, c),
    ensures
        score_ge(a, c),
{
    match (a, b, c) {
        (
            Score::Fused { num: an, den: ad },
            Score::Fused { num: bn, den: bd },
            Score::Fused { num: cn, den: cd },
        ) => {
            assert((an * cd) * bd >= (cn * ad) * bd) by (nonlinear_arith)
                requires
                    an * bd >= bn * ad,
                    bn * cd >= cn * bd,
                    ad >= 1,
                    bd >= 1,
                    cd >= 1,
            ;
            assert(an * cd >= cn * ad) by (nonlinear_arith)
                requires
                    (an * cd) * bd >= (cn * ad) * bd,
                    bd >= 1,
            ;
        },
        _ => {},
    }
}

/// A search result: one surviving row with its score.
pub struct SearchResult {
    /// Id of the underlying row.
    pub id: u128,
    /// File name alone, cut out of the stored path.
    pub file_name: String,
    /// The stored path of the source file.
    pub file_path: String,
    /// Page of the source file, where known.
    pub page_number: Option<String>,
    /// The chunk's text.
    pub text: String,
    /// Fused or re-ranked score.
    pub score: Score,
}

/// Mathematical image of a [`SearchResult`].
pub struct SearchResultV {
    pub id: u128,
    pub file_name: Seq<char>,
    pub file_path: Seq<char>,
    pub page_number: Option<Seq<char>>,
    pub text: Seq<char>,
    pub score: Score,
}

impl View for SearchResult {
    type V = SearchResultV;

    open spec fn view(&self) -> SearchResultV {
        SearchResultV {
            id: self.id,
            file_name: self.file_name@,
            file_path: self.file_path@,
            page_number: self.page_number.deep_view(),
            text: self.text@,
            score: self.score,
        }
    }
}

impl DeepView for SearchResult {
    type V = SearchResultV;

    open spec fn deep_view(&self) -> SearchResultV {
        self.view()
    }
}

} // verus!
