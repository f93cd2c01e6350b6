use crate::embedding_service::is_term_vector;
use crate::gemini_service::{build_context, build_prompt, context_of, prompt_of};
use crate::models::{
    document_views,
    ranked_views,
    Document,
    ErrorResponse,
    QueryResponse,
    RankedChunk,
    RankedChunkView,
    TermVector,
};
use crate::query_service::{
    candidates,
    effective_max_results,
    is_retrieval,
    response_of,
    QueryService,
    DEFAULT_MAX_RESULTS,
};
use crate::tokenizer::tokens_of;
use vstd::prelude::*;

verus! {

/// Where the answering of a query stands.
#[derive(Debug)]
pub enum QueryPhase {
    /// The query vector is out for scoring against the chunks.
    Scoring { query: String, max_results: usize },
    /// The chunks are retrieved and the prompt is out for an answer.
    Generating { ranked: Vec<RankedChunk> },
    /// The query is answered or has failed.
    Done,
}

/// What comes back from outside while a query is answered.
#[derive(Debug)]
pub enum QueryEvent {
    /// The score of each chunk that has an embedding, in corpus order.
    Scored(Vec<u32>),
    /// The answer of the generation service.
    Answered(String),
    /// The generation service failed, with its message.
    GenerationFailed(String),
}

/// Why a query has no answer.
#[derive(Debug, PartialEq, Eq)]
pub enum QueryFailure {
    /// The generation service failed; its message is passed on as it came.
    GenerationFailed(String),
    /// There was not one score for each chunk that has an embedding.
    ScoreCountMismatch,
    /// The event is none that the phase waits for.
    OutOfTurn,
}

/// What is to be done next for a query.
#[derive(Debug)]
pub enum QueryAction {
    /// Score every chunk that has an embedding against this vector.
    Score(TermVector),
    /// Send this prompt to the generation service.
    Generate(String),
    /// Hand this response to the caller.
    Respond(QueryResponse),
    /// Report this failure to the caller.
    Fail(QueryFailure),
}

/// The kind under which a failure is reported.
pub open spec fn failure_kind(failure: QueryFailure) -> Seq<char> {
    match failure {
        QueryFailure::GenerationFailed(_) => "GenerationFailed"@,
        QueryFailure::ScoreCountMismatch => "ScoreCountMismatch"@,
        QueryFailure::OutOfTurn => "OutOfTurn"@,
    }
}

/// The kind under which a failure is reported.
pub fn failure_name(failure: &QueryFailure) -> (name: String)
    ensures
        name@ == failure_kind(*failure),
{
    match failure {
        QueryFailure::GenerationFailed(_) => "GenerationFailed".to_string(),
        QueryFailure::ScoreCountMismatch => "ScoreCountMismatch".to_string(),
        QueryFailure::OutOfTurn => "OutOfTurn".to_string(),
    }
}

/// The message with which a failure is reported: that of the generation
/// service where it failed, else a sentence that says what went wrong.
pub open spec fn failure_message(failure: QueryFailure) -> Seq<char> {
    match failure {
        QueryFailure::GenerationFailed(message) => message@,
        QueryFailure::ScoreCountMismatch => "There is not one score for each embedded chunk"@,
        QueryFailure::OutOfTurn => "The event is none that the query waits for"@,
    }
}

/// The report of a failure: its kind as the status, and its message.
pub fn failure_response(failure: &QueryFailure) -> (report: ErrorResponse)
    ensures
        report.status@ == failure_kind(*failure),
        report.error@ == failure_message(*failure),
{
    let error = match failure {
        QueryFailure::GenerationFailed(message) => message.clone(),
        QueryFailure::ScoreCountMismatch => "There is not one score for each embedded chunk".to_string(),
        QueryFailure::OutOfTurn => "The event is none that the query waits for".to_string(),
    };
    ErrorResponse { status: failure_name(failure), error }
}

impl QueryService {
    /// Starts the answering of a query: the query is embedded, and its
    /// vector goes out for scoring.
    pub fn begin(&self, query: &str, max_results: Option<usize>) -> (next: (
        QueryPhase,
        QueryAction,
    ))
        ensures
            next.0 matches QueryPhase::Scoring { query: kept, max_results: limit } && kept@
                == query@ && limit == match max_results {
                Some(n) => n,
                None => DEFAULT_MAX_RESULTS,
            },
            next.1 matches QueryAction::Score(v) && is_term_vector(
                v@,
                tokens_of(query@),
                self.model().vocabulary_terms(),
            ),
    {
        let vector = self.embed_query(query);
        (
            QueryPhase::Scoring {
                query: query.to_string(),
                max_results: effective_max_results(max_results),
            },
            QueryAction::Score(vector),
        )
    }

    /// Takes the answering of a query one step on. With the scores, the
    /// best chunks are retrieved and the prompt goes out. With the answer,
    /// the response is built: `processing_time_ms` is the time since the
    /// query began. A failure of the generation service ends the query with
    /// that failure, and so does an event that is out of turn.
    pub fn advance(
        &self,
        documents: &Vec<Document>,
        phase: QueryPhase,
        event: QueryEvent,
        processing_time_ms: u128,
    ) -> (next: (QueryPhase, QueryAction))
        ensures
            match (phase, event) {
                (QueryPhase::Scoring { query, max_results }, QueryEvent::Scored(scores)) => {
                    if scores@.len() == candidates(document_views(documents@)).len() {
                        &&& next.0 matches QueryPhase::Generating { ranked }
                        &&& is_retrieval(
                            ranked_views(ranked@),
                            candidates(document_views(documents@)),
                            scores@,
                            max_results as nat,
                        )
                        &&& next.1 matches QueryAction::Generate(prompt)
                        &&& prompt@ == prompt_of(
                            query@,
                            context_of(ranked_views(ranked@), document_views(documents@)),
                        )
                    } else {
                        &&& next.0 is Done
                        &&& next.1 == QueryAction::Fail(QueryFailure::ScoreCountMismatch)
                    }
                },
                (QueryPhase::Generating { ranked }, QueryEvent::Answered(answer)) => {
                    &&& next.0 is Done
                    &&& next.1 matches QueryAction::Respond(response)
                    &&& response@ == response_of(
                        answer@,
                        ranked_views(ranked@),
                        document_views(documents@),
                        processing_time_ms,
                    )
                },
                (QueryPhase::Generating { ranked }, QueryEvent::GenerationFailed(message)) => {
                    &&& next.0 is Done
                    &&& next.1 matches QueryAction::Fail(QueryFailure::GenerationFailed(passed))
                    &&& passed@ == message@
                },
                _ => {
                    &&& next.0 is Done
                    &&& next.1 == QueryAction::Fail(QueryFailure::OutOfTurn)
                },
            },
    {
        match (phase, event) {
            (QueryPhase::Scoring { query, max_results }, QueryEvent::Scored(scores)) => {
                match self.find_relevant_chunks(&scores, documents, max_results) {
                    Ok(ranked) => {
                        let context = build_context(&ranked, documents);
                        let prompt = build_prompt(query.as_str(), context.as_str());
                        (QueryPhase::Generating { ranked }, QueryAction::Generate(prompt))
                    },
                    Err(_) => (
                        QueryPhase::Done,
                        QueryAction::Fail(QueryFailure::ScoreCountMismatch),
                    ),
                }
            },
            (QueryPhase::Generating { ranked }, QueryEvent::Answered(answer)) => {
                let response = self.build_response(answer, &ranked, documents, processing_time_ms);
                (QueryPhase::Done, QueryAction::Respond(response))
            },
            (QueryPhase::Generating { ranked }, QueryEvent::GenerationFailed(message)) => {
                (QueryPhase::Done, QueryAction::Fail(QueryFailure::GenerationFailed(message)))
            },
            _ => (QueryPhase::Done, QueryAction::Fail(QueryFailure::OutOfTurn)),
        }
    }
}

} // verus!
