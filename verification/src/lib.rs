//! Retrieval-scoring dispatch layer: turns raw text into dense vectors,
//! sparse token-weight vectors and relevance scores for similarity
//! search and reranking.
//!
//! The crate covers the batched dispatch-and-aggregate engine:
//!
//! - [`batch`] splits large ordered inputs into bounded groups, tags
//!   them, and reassembles per-group results in input order no matter in
//!   which order the concurrent calls complete — failing the whole call
//!   on the first failed group;
//! - [`blend`] mixes an auxiliary boost signal into vectors, additively
//!   for dense and multiplicatively-on-overlap for sparse;
//! - [`bm25`] computes local sparse relevance vectors with saturating
//!   BM25 term weighting, with no remote service involved;
//! - [`dense`], [`sparse`] and [`rerank`] compose clipping, batching and
//!   blending into the embedding and reranking services, building every
//!   request payload and interpreting every response;
//! - [`clip`] bounds over-long inputs per capability.
//!
//! Remote transports are driven by a host program; every decision and
//! every numeric step lives here.  Scores and weights are fixed-point
//! integers (see [`fixed`]): each `i64` counts units of `1 / FX_SCALE`,
//! standing in for the 32-bit floats that cross the service boundary.

pub mod batch;
pub mod blend;
pub mod bm25;
pub mod clip;
pub mod dense;
pub mod error;
pub mod fixed;
pub mod rerank;
pub mod sparse;
