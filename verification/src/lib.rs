//! Retrieval and synchronisation logic of a question-answering service over
//! insurance product documents.
//!
//! The crate holds every decision of the service and none of its input or
//! output: it plans how the vector index is brought in line with the corpus
//! ([`sync`], [`ingest`]), cuts documents into chunks ([`assembly`],
//! [`policy_chunks`], [`chunking`], [`tags`]), and turns a raw question into
//! a ranked, deduplicated context for generation ([`normalize`], [`intent`],
//! [`rewrite`], [`retrieve`], [`category`], [`rerank`], [`context`]). The
//! stages of a query are tied together by a state machine ([`pipeline`])
//! that a driver runs against the embedding model, the index and the
//! language model.
//!
//! Contracts are stated over the character views of strings and over views
//! of the data types; what holds of every synchronisation pass is proved in
//! [`sync_laws`], what holds of every query in [`pipeline_laws`].

pub mod advisor;
pub mod assembly;
pub mod category;
pub mod chunking;
pub mod context;
pub mod digest;
pub mod ingest;
pub mod intent;
pub mod llm;
pub mod models;
pub mod normalize;
pub mod pattern;
pub mod pipeline;
pub mod pipeline_laws;
pub mod policy_chunks;
pub mod rerank;
pub mod retrieve;
pub mod rewrite;
pub mod session;
pub mod settings;
pub mod sync;
pub mod sync_laws;
pub mod table;
pub mod tags;
pub mod text;
