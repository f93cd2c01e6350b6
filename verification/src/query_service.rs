use crate::embedding_service::{all_chunks, is_term_vector, EmbeddingService};
use crate::models::{
    chunk_views,
    citation_views,
    document_views,
    ranked_views,
    ChunkView,
    Citation,
    CitationView,
    Document,
    DocumentChunk,
    DocumentView,
    QueryResponse,
    QueryResponseView,
    RankedChunk,
    RankedChunkView,
    TermVector,
};
use crate::ranking::{
    descending_order,
    is_descending_order,
    lemma_equal_keys_keep_order,
    lemma_greatest_is_first,
    lemma_order_is_sorted,
    lemma_order_is_unique,
};
use crate::text::{chars_of, string_of};
use crate::tokenizer::tokens_of;
use vstd::prelude::*;

verus! {

/// A citation quotes at most this many characters of its chunk.
pub const EXCERPT_LENGTH: usize = 200;

/// The number of chunks that are retrieved where a request names none.
pub const DEFAULT_MAX_RESULTS: usize = 5;

/// The number of chunks to retrieve for a request.
pub fn effective_max_results(max_results: Option<usize>) -> (limit: usize)
    ensures
        limit == match max_results {
            Some(n) => n,
            None => DEFAULT_MAX_RESULTS,
        },
{
    match max_results {
        Some(n) => n,
        None => DEFAULT_MAX_RESULTS,
    }
}

/// Why a retrieval was refused.
#[derive(Debug, Clone, Copy, PartialEq, Eq, Structural)]
pub enum RetrievalError {
    /// There is not one score for each chunk that has an embedding.
    ScoreCountMismatch,
}

/// The chunks that have an embedding, in order.
pub open spec fn embedded_only(chunks: Seq<ChunkView>) -> Seq<ChunkView>
    decreases chunks.len(),
{
    if chunks.len() == 0 {
        Seq::empty()
    } else if chunks.last().embedding is Some {
        embedded_only(chunks.drop_last()).push(chunks.last())
    } else {
        embedded_only(chunks.drop_last())
    }
}

/// The chunks of a corpus that take part in retrieval: those that have an
/// embedding, in the order of the documents and of their chunks.
pub open spec fn candidates(documents: Seq<DocumentView>) -> Seq<ChunkView> {
    embedded_only(all_chunks(documents))
}

/// The scores as ranking keys.
pub open spec fn score_keys(scores: Seq<u32>) -> Seq<u128> {
    Seq::new(scores.len(), |i: int| scores[i] as u128)
}

/// `ranked` holds the first `limit` candidates in the order `order`, each
/// with its score, where `order` ranks the candidates by descending score
/// and keeps candidates of equal score in their order.
pub open spec fn is_ranking(
    ranked: Seq<RankedChunkView>,
    candidates: Seq<ChunkView>,
    scores: Seq<u32>,
    order: Seq<usize>,
    limit: nat,
) -> bool {
    &&& scores.len() == candidates.len()
    &&& is_descending_order(score_keys(scores), order)
    &&& ranked.len() == if limit < candidates.len() {
        limit
    } else {
        candidates.len()
    }
    &&& forall|r: int|
        0 <= r < ranked.len() ==> (#[trigger] ranked[r]).chunk == candidates[order[r] as int]
            && ranked[r].score == scores[order[r] as int]
}

/// `ranked` holds the `limit` best candidates by score, best first; there
/// is exactly one such list.
pub open spec fn is_retrieval(
    ranked: Seq<RankedChunkView>,
    candidates: Seq<ChunkView>,
    scores: Seq<u32>,
    limit: nat,
) -> bool {
    exists|order: Seq<usize>| is_ranking(ranked, candidates, scores, order, limit)
}

/// A retrieval returns as many chunks as were asked for, or all candidates
/// if there are fewer, by non-increasing score.
pub proof fn lemma_retrieval_is_sorted(
    ranked: Seq<RankedChunkView>,
    candidates: Seq<ChunkView>,
    scores: Seq<u32>,
    limit: nat,
)
    requires
        is_retrieval(ranked, candidates, scores, limit),
    ensures
        ranked.len() == if limit < candidates.len() {
            limit
        } else {
            candidates.len()
        },
        forall|r: int, s: int|
            0 <= r < s < ranked.len() ==> (#[trigger] ranked[r]).score >= (#[trigger] ranked[s]).score,
{
    let order = choose|order: Seq<usize>| is_ranking(ranked, candidates, scores, order, limit);
    lemma_order_is_sorted(score_keys(scores), order);
    assert forall|r: int, s: int| 0 <= r < s < ranked.len() implies (#[trigger] ranked[r]).score
        >= (#[trigger] ranked[s]).score by {
        assert(score_keys(scores)[order[r] as int] >= score_keys(scores)[order[s] as int]);
    }
}

/// The candidates, the scores and the limit decide what a retrieval
/// returns.
pub proof fn lemma_retrieval_is_unique(
    first: Seq<RankedChunkView>,
    second: Seq<RankedChunkView>,
    candidates: Seq<ChunkView>,
    scores: Seq<u32>,
    limit: nat,
)
    requires
        is_retrieval(first, candidates, scores, limit),
        is_retrieval(second, candidates, scores, limit),
    ensures
        first == second,
{
    let a = choose|order: Seq<usize>| is_ranking(first, candidates, scores, order, limit);
    let b = choose|order: Seq<usize>| is_ranking(second, candidates, scores, order, limit);
    lemma_order_is_unique(score_keys(scores), a, b);
    assert(first =~= second);
}

/// Where all candidates have the same score, a retrieval returns them in
/// corpus order.
pub proof fn lemma_equal_scores_keep_corpus_order(
    ranked: Seq<RankedChunkView>,
    candidates: Seq<ChunkView>,
    scores: Seq<u32>,
    limit: nat,
)
    requires
        is_retrieval(ranked, candidates, scores, limit),
        forall|i: int, j: int|
            0 <= i < scores.len() && 0 <= j < scores.len() ==> scores[i] == scores[j],
    ensures
        forall|r: int| 0 <= r < ranked.len() ==> (#[trigger] ranked[r]).chunk == candidates[r],
{
    let order = choose|order: Seq<usize>| is_ranking(ranked, candidates, scores, order, limit);
    lemma_equal_keys_keep_order(score_keys(scores), order);
}

/// A candidate whose score is greater than every other score is the first
/// that a retrieval returns, if it returns any.
pub proof fn lemma_best_chunk_is_first(
    ranked: Seq<RankedChunkView>,
    candidates: Seq<ChunkView>,
    scores: Seq<u32>,
    limit: nat,
    best: int,
)
    requires
        is_retrieval(ranked, candidates, scores, limit),
        limit >= 1,
        0 <= best < candidates.len(),
        forall|j: int| 0 <= j < scores.len() && j != best ==> scores[j] < scores[best],
    ensures
        ranked.len() >= 1,
        ranked[0].chunk == candidates[best],
        ranked[0].score == scores[best],
{
    let order = choose|order: Seq<usize>| is_ranking(ranked, candidates, scores, order, limit);
    lemma_greatest_is_first(score_keys(scores), order, best);
}

/// Whether a document holds a chunk with the given identifier.
pub open spec fn owns(document: DocumentView, id: Seq<char>) -> bool {
    exists|c: int| 0 <= c < document.chunks.len() && (#[trigger] document.chunks[c]).id == id
}

/// The position of the first document that holds a chunk with the given
/// identifier.
pub open spec fn owner_of(documents: Seq<DocumentView>, id: Seq<char>) -> Option<int>
    decreases documents.len(),
{
    if documents.len() == 0 {
        None
    } else {
        match owner_of(documents.drop_last(), id) {
            Some(d) => Some(d),
            None => if owns(documents.last(), id) {
                Some(documents.len() - 1)
            } else {
                None
            },
        }
    }
}

/// The excerpt of a chunk's text: the text itself if it has at most
/// `EXCERPT_LENGTH` characters, else its first `EXCERPT_LENGTH` characters
/// and three dots.
pub open spec fn excerpt_of(content: Seq<char>) -> Seq<char> {
    if content.len() > EXCERPT_LENGTH {
        content.take(EXCERPT_LENGTH as int) + seq!['.', '.', '.']
    } else {
        content
    }
}

/// The citations of a list of retrieved chunks: one for each chunk whose
/// document is found, in order.
pub open spec fn citations_of(
    ranked: Seq<RankedChunkView>,
    documents: Seq<DocumentView>,
) -> Seq<CitationView>
    decreases ranked.len(),
{
    if ranked.len() == 0 {
        Seq::empty()
    } else {
        let earlier = citations_of(ranked.drop_last(), documents);
        match owner_of(documents, ranked.last().chunk.id) {
            Some(d) => earlier.push(
                CitationView {
                    document: documents[d].filename,
                    text_excerpt: excerpt_of(ranked.last().chunk.content),
                    confidence_score: ranked.last().score,
                },
            ),
            None => earlier,
        }
    }
}

/// The status of a response that carries an answer.
pub const SUCCESS: &'static str = "success";

/// The response to a query: the answer that was generated, the citations of
/// the retrieved chunks, and the time that the query took.
pub open spec fn response_of(
    answer: Seq<char>,
    ranked: Seq<RankedChunkView>,
    documents: Seq<DocumentView>,
    processing_time_ms: u128,
) -> QueryResponseView {
    QueryResponseView {
        status: SUCCESS@,
        response: answer,
        citations: citations_of(ranked, documents),
        processing_time_ms,
    }
}

/// The chunks of the documents that have an embedding, in corpus order.
pub fn embedded_chunks(documents: &Vec<Document>) -> (found: Vec<DocumentChunk>)
    ensures
        chunk_views(found@) == candidates(document_views(documents@)),
{
    let mut found: Vec<DocumentChunk> = Vec::new();
    let ghost docs = document_views(documents@);
    let mut d: usize = 0;
    assert(docs.take(0) == Seq::<DocumentView>::empty());
    assert(chunk_views(found@) == Seq::<ChunkView>::empty());
    while d < documents.len()
        invariant
            d <= documents.len(),
            docs == document_views(documents@),
            chunk_views(found@) == candidates(docs.take(d as int)),
        decreases documents.len() - d,
    {
        let chunks = &documents[d].chunks;
        let ghost done = all_chunks(docs.take(d as int));
        let mut c: usize = 0;
        assert(docs.take(d as int + 1).drop_last() == docs.take(d as int));
        assert(docs.take(d as int + 1).last().chunks == chunk_views(chunks@));
        assert(done + chunk_views(chunks@).take(0) == done);
        while c < chunks.len()
            invariant
                c <= chunks.len(),
                chunk_views(found@) == embedded_only(done + chunk_views(chunks@).take(c as int)),
            decreases chunks.len() - c,
        {
            proof {
                let grown = done + chunk_views(chunks@).take(c as int + 1);
                let shorter = done + chunk_views(chunks@).take(c as int);
                assert(grown.drop_last() == shorter);
                assert(grown.last() == chunks@[c as int]@);
            }
            if chunks[c].embedding.is_some() {
                let ghost before = found@;
                found.push(chunks[c].clone());
                assert(chunk_views(found@) == chunk_views(before).push(chunks@[c as int]@));
            }
            c += 1;
        }
        assert(chunk_views(chunks@).take(c as int) == chunk_views(chunks@));
        d += 1;
    }
    assert(docs.take(d as int) == docs);
    found
}

/// The scores as ranking keys.
fn keys_of(scores: &Vec<u32>) -> (keys: Vec<u128>)
    ensures
        keys@ == score_keys(scores@),
{
    let mut keys: Vec<u128> = Vec::new();
    let mut i: usize = 0;
    while i < scores.len()
        invariant
            i <= scores.len(),
            keys@ == score_keys(scores@).take(i as int),
        decreases scores.len() - i,
    {
        keys.push(scores[i] as u128);
        i += 1;
    }
    assert(score_keys(scores@).take(i as int) == score_keys(scores@));
    keys
}

/// Whether a document holds a chunk with the given identifier.
pub fn holds_chunk(document: &Document, id: &String) -> (found: bool)
    ensures
        found == owns(document@, id@),
{
    let mut c: usize = 0;
    while c < document.chunks.len()
        invariant
            c <= document.chunks.len(),
            forall|k: int| 0 <= k < c ==> (#[trigger] document@.chunks[k]).id != id@,
        decreases document.chunks.len() - c,
    {
        if document.chunks[c].id == *id {
            assert(document@.chunks[c as int].id == id@);
            return true;
        }
        c += 1;
    }
    false
}

/// The position of the first document that holds a chunk with the given
/// identifier.
pub fn find_owner(documents: &Vec<Document>, id: &String) -> (found: Option<usize>)
    ensures
        match found {
            Some(d) => owner_of(document_views(documents@), id@) == Some(d as int) && d
                < documents.len(),
            None => owner_of(document_views(documents@), id@) is None,
        },
{
    let ghost docs = document_views(documents@);
    let mut d: usize = 0;
    assert(docs.take(0) == Seq::<DocumentView>::empty());
    while d < documents.len()
        invariant
            d <= documents.len(),
            docs == document_views(documents@),
            owner_of(docs.take(d as int), id@) is None,
        decreases documents.len() - d,
    {
        assert(docs.take(d as int + 1).drop_last() == docs.take(d as int));
        if holds_chunk(&documents[d], id) {
            proof {
                lemma_owner_found(docs, d as int + 1, id@);
            }
            return Some(d);
        }
        d += 1;
    }
    assert(docs.take(d as int) == docs);
    None
}

/// An owner found among the first documents is the owner among all.
proof fn lemma_owner_found(documents: Seq<DocumentView>, n: int, id: Seq<char>)
    requires
        0 <= n <= documents.len(),
        owner_of(documents.take(n), id) is Some,
    ensures
        owner_of(documents, id) == owner_of(documents.take(n), id),
    decreases documents.len(),
{
    if n == documents.len() {
        assert(documents.take(n) == documents);
    } else {
        assert(documents.drop_last().take(n) == documents.take(n));
        lemma_owner_found(documents.drop_last(), n, id);
    }
}

/// The excerpt of a chunk's text.
pub fn excerpt(content: &str) -> (text: String)
    ensures
        text@ == excerpt_of(content@),
{
    let chars = chars_of(content);
    if chars.len() > EXCERPT_LENGTH {
        let mut head: Vec<char> = Vec::new();
        let mut i: usize = 0;
        while i < EXCERPT_LENGTH
            invariant
                i <= EXCERPT_LENGTH < chars.len(),
                head@ == chars@.take(i as int),
            decreases EXCERPT_LENGTH - i,
        {
            head.push(chars[i]);
            i += 1;
        }
        head.push('.');
        head.push('.');
        head.push('.');
        assert(head@ == chars@.take(EXCERPT_LENGTH as int) + seq!['.', '.', '.']);
        string_of(&head)
    } else {
        string_of(&chars)
    }
}

/// Answers questions against a corpus with the term model of the corpus.
pub struct QueryService {
    embedding_service: EmbeddingService,
}

impl QueryService {
    /// The term model that the service embeds queries with.
    pub closed spec fn model(&self) -> EmbeddingService {
        self.embedding_service
    }

    /// A service that embeds queries with the given term model.
    pub fn new(embedding_service: EmbeddingService) -> (service: Self)
        ensures
            service.model() == embedding_service,
    {
        QueryService { embedding_service }
    }

    /// The term model that the service embeds queries with.
    pub fn embedding_service(&self) -> (model: &EmbeddingService)
        ensures
            *model == self.model(),
    {
        &self.embedding_service
    }

    /// The term vector of a query over the vocabulary of the corpus.
    pub fn embed_query(&self, query: &str) -> (v: TermVector)
        ensures
            is_term_vector(v@, tokens_of(query@), self.model().vocabulary_terms()),
    {
        self.embedding_service.embed_query(query)
    }

    /// Ranks the chunks that have an embedding by descending score and
    /// returns the first `max_results` of them. `scores` holds the score of
    /// each such chunk, in corpus order. Chunks of equal score stay in
    /// corpus order.
    pub fn find_relevant_chunks(
        &self,
        scores: &Vec<u32>,
        documents: &Vec<Document>,
        max_results: usize,
    ) -> (result: Result<Vec<RankedChunk>, RetrievalError>)
        ensures
            result is Ok <==> scores@.len() == candidates(document_views(documents@)).len(),
            result matches Ok(ranked) ==> is_retrieval(
                ranked_views(ranked@),
                candidates(document_views(documents@)),
                scores@,
                max_results as nat,
            ),
    {
        let found = embedded_chunks(documents);
        assert(chunk_views(found@).len() == found@.len());
        if scores.len() != found.len() {
            return Err(RetrievalError::ScoreCountMismatch);
        }
        let keys = keys_of(scores);
        let order = descending_order(&keys);
        let size = if max_results < found.len() {
            max_results
        } else {
            found.len()
        };
        let mut ranked: Vec<RankedChunk> = Vec::new();
        let mut r: usize = 0;
        while r < size
            invariant
                r <= size <= found.len(),
                scores.len() == found.len(),
                is_descending_order(score_keys(scores@), order@),
                ranked@.len() == r,
                forall|k: int|
                    0 <= k < r ==> (#[trigger] ranked@[k])@.chunk == chunk_views(
                        found@,
                    )[order@[k] as int] && ranked@[k].score == scores@[order@[k] as int],
            decreases size - r,
        {
            assert(order@[r as int] < found.len());
            let position = order[r];
            ranked.push(RankedChunk { chunk: found[position].clone(), score: scores[position] });
            r += 1;
        }
        proof {
            assert(chunk_views(found@).len() == found@.len());
            assert(is_ranking(
                ranked_views(ranked@),
                candidates(document_views(documents@)),
                scores@,
                order@,
                max_results as nat,
            ));
        }
        Ok(ranked)
    }

    /// The citations of the retrieved chunks: for each chunk whose document
    /// is found, the document's name, an excerpt of the chunk and its score.
    pub fn create_citations(&self, chunks: &Vec<RankedChunk>, documents: &Vec<Document>) -> (citations:
        Vec<Citation>)
        ensures
            citation_views(citations@) == citations_of(
                ranked_views(chunks@),
                document_views(documents@),
            ),
    {
        let mut citations: Vec<Citation> = Vec::new();
        let ghost ranked = ranked_views(chunks@);
        let ghost docs = document_views(documents@);
        let mut i: usize = 0;
        assert(ranked.take(0) == Seq::<RankedChunkView>::empty());
        assert(citation_views(citations@) == Seq::<CitationView>::empty());
        while i < chunks.len()
            invariant
                i <= chunks.len(),
                ranked == ranked_views(chunks@),
                docs == document_views(documents@),
                citation_views(citations@) == citations_of(ranked.take(i as int), docs),
            decreases chunks.len() - i,
        {
            assert(ranked.take(i as int + 1).drop_last() == ranked.take(i as int));
            assert(ranked.take(i as int + 1).last() == chunks@[i as int]@);
            match find_owner(documents, &chunks[i].chunk.id) {
                Some(d) => {
                    let ghost before = citations@;
                    let citation = Citation {
                        document: documents[d].filename.clone(),
                        text_excerpt: excerpt(chunks[i].chunk.content.as_str()),
                        confidence_score: chunks[i].score,
                    };
                    citations.push(citation);
                    assert(citation_views(citations@) == citation_views(before).push(
                        citations@[before.len() as int]@,
                    ));
                },
                None => {},
            }
            i += 1;
        }
        assert(ranked.take(i as int) == ranked);
        citations
    }

    /// The response to a query: see `response_of`.
    pub fn build_response(
        &self,
        response: String,
        chunks: &Vec<RankedChunk>,
        documents: &Vec<Document>,
        processing_time_ms: u128,
    ) -> (answer: QueryResponse)
        ensures
            answer@ == response_of(
                response@,
                ranked_views(chunks@),
                document_views(documents@),
                processing_time_ms,
            ),
    {
        let citations = self.create_citations(chunks, documents);
        QueryResponse { status: SUCCESS.to_string(), response, citations, processing_time_ms }
    }
}

} // verus!
