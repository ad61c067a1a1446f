//! Verified core of a hybrid document-retrieval engine.
//!
//! Chunks of extracted text, each paired with an embedding vector, are stored
//! in a workspace-scoped table. A search runs a vector-similarity query and a
//! full-text query, deduplicates each result list by text content, fuses the
//! two lists with Reciprocal Rank Fusion, optionally re-ranks the fused
//! candidates with scores from an external cross-encoder, and drops short
//! chunks. This crate verifies that logic: the table model with its ingest
//! and delete operations, the filter-expression builder with its quote
//! escaping, the fusion pipeline, and the workspace reconciliation rules.
//! The storage engine, the embedding model and the re-ranker stay outside;
//! callers hand their results in as plain rows and scores.

pub mod filter;
pub mod lifecycle;
pub mod rank;
pub mod record;
pub mod search;
pub mod sort;
pub mod table;
pub mod text;

use vstd::prelude::*;

verus! {

/// Errors of the retrieval core.
#[derive(Debug, Clone, Copy, PartialEq, Eq, Structural)]
pub enum Error {
    /// A chunk's vector length differs from the table's dimension.
    DimensionMismatch,
    /// A filter expression would have carried an unescaped quote.
    FilterInjection,
    /// The underlying store failed a query or a write.
    EngineFailure,
    /// The re-ranking provider failed or broke its one-score-per-candidate contract.
    RerankFailure,
    /// The embedding or re-ranking model could not be reached.
    ModelUnavailable,
}

impl Error {
    /// A short human-readable description of the error.
    pub fn describe(&self) -> (r: String)
        ensures
            r@.len() > 0,
    {
        let s = match self {
            Error::DimensionMismatch => "vector dimension does not match the table schema",
            Error::FilterInjection => "filter expression held an unescaped quote",
            Error::EngineFailure => "the underlying store failed",
            Error::RerankFailure => "re-ranking failed",
            Error::ModelUnavailable => "the model provider is unreachable",
        };
        proof {
            reveal_strlit("vector dimension does not match the table schema");
            reveal_strlit("filter expression held an unescaped quote");
            reveal_strlit("the underlying store failed");
            reveal_strlit("re-ranking failed");
            reveal_strlit("the model provider is unreachable");
        }
        String::from_str(s)
    }
}

} // verus!
