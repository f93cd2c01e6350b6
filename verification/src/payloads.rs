use vstd::prelude::*;

verus! {

/// A question, with the address of a document to answer it from.
#[derive(Debug, PartialEq, Eq)]
pub struct QueryPayload {
    pub query: String,
    pub pdf_url: Option<String>,
}

/// Questions on one document.
#[derive(Debug, PartialEq, Eq)]
pub struct HackRxRequest {
    pub documents: String,
    pub questions: Vec<String>,
}

/// An answer with the pieces of context that it rests on.
#[derive(Debug, PartialEq, Eq)]
pub struct RagResponse {
    pub answer: String,
    pub context_snippets: Vec<String>,
}

} // verus!
