//! Retrieval over a small corpus of documents: chunking of cleaned text,
//! the term model of a corpus, term vectors of chunks and queries, ranked
//! retrieval, and the citations and prompts that go with an answer.
//!
//! The library holds the discrete part of the work and proves it. Weights,
//! norms and similarities are floating-point numbers and are computed by the
//! caller from the integers that the library hands out.

pub mod auth;
pub mod chunker;
pub mod corpus;
pub mod document_processor;
pub mod embedding_service;
pub mod gemini_service;
pub mod models;
pub mod orchestrator;
pub mod patterns;
pub mod payloads;
pub mod query_service;
pub mod rag_query;
pub mod ranking;
pub mod term_stats;
pub mod text;
pub mod tokenizer;
pub mod utils;
