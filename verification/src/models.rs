use vstd::prelude::*;

verus! {

/// The integer form of an embedding: how often each vocabulary term occurs
/// in a text, and how many tokens the text has in all. Component `i` of the
/// weighted vector is `counts[i] / total_tokens` times the weight of
/// vocabulary term `i`.
#[derive(Debug, PartialEq, Eq)]
pub struct TermVector {
    pub counts: Vec<usize>,
    pub total_tokens: usize,
}

/// The mathematical content of a `TermVector`.
pub struct TermVectorView {
    pub counts: Seq<usize>,
    pub total_tokens: usize,
}

impl View for TermVector {
    type V = TermVectorView;

    open spec fn view(&self) -> TermVectorView {
        TermVectorView { counts: self.counts@, total_tokens: self.total_tokens }
    }
}

impl Clone for TermVector {
    fn clone(&self) -> (copy: Self)
        ensures
            copy@ == self@,
    {
        let mut counts: Vec<usize> = Vec::new();
        let mut i: usize = 0;
        while i < self.counts.len()
            invariant
                i <= self.counts.len(),
                counts@ == self.counts@.take(i as int),
            decreases self.counts.len() - i,
        {
            counts.push(self.counts[i]);
            i += 1;
        }
        assert(self.counts@.take(i as int) == self.counts@);
        TermVector { counts, total_tokens: self.total_tokens }
    }
}

/// A span of a document's cleaned text, the unit of retrieval.
#[derive(Debug, PartialEq, Eq)]
pub struct DocumentChunk {
    pub id: String,
    pub content: String,
    pub start_position: usize,
    pub end_position: usize,
    pub embedding: Option<TermVector>,
}

/// The mathematical content of a `DocumentChunk`.
pub struct ChunkView {
    pub id: Seq<char>,
    pub content: Seq<char>,
    pub start_position: usize,
    pub end_position: usize,
    pub embedding: Option<TermVectorView>,
}

/// The view of an optional term vector.
pub open spec fn embedding_view(embedding: Option<TermVector>) -> Option<TermVectorView> {
    match embedding {
        Some(v) => Some(v@),
        None => None,
    }
}

impl View for DocumentChunk {
    type V = ChunkView;

    open spec fn view(&self) -> ChunkView {
        ChunkView {
            id: self.id@,
            content: self.content@,
            start_position: self.start_position,
            end_position: self.end_position,
            embedding: embedding_view(self.embedding),
        }
    }
}

impl Clone for DocumentChunk {
    fn clone(&self) -> (copy: Self)
        ensures
            copy@ == self@,
    {
        let embedding = match &self.embedding {
            Some(v) => Some(v.clone()),
            None => None,
        };
        DocumentChunk {
            id: self.id.clone(),
            content: self.content.clone(),
            start_position: self.start_position,
            end_position: self.end_position,
            embedding,
        }
    }
}

/// The views of a sequence of chunks.
pub open spec fn chunk_views(chunks: Seq<DocumentChunk>) -> Seq<ChunkView> {
    Seq::new(chunks.len(), |i: int| chunks[i]@)
}

/// A document of the corpus with its chunks.
#[derive(Debug, PartialEq, Eq)]
pub struct Document {
    pub id: String,
    pub filename: String,
    pub content: String,
    pub chunks: Vec<DocumentChunk>,
}

/// The mathematical content of a `Document`.
pub struct DocumentView {
    pub id: Seq<char>,
    pub filename: Seq<char>,
    pub content: Seq<char>,
    pub chunks: Seq<ChunkView>,
}

impl View for Document {
    type V = DocumentView;

    open spec fn view(&self) -> DocumentView {
        DocumentView {
            id: self.id@,
            filename: self.filename@,
            content: self.content@,
            chunks: chunk_views(self.chunks@),
        }
    }
}

/// The views of a sequence of documents.
pub open spec fn document_views(documents: Seq<Document>) -> Seq<DocumentView> {
    Seq::new(documents.len(), |i: int| documents[i]@)
}

/// Copies a list of chunks.
pub fn clone_chunks(chunks: &Vec<DocumentChunk>) -> (copy: Vec<DocumentChunk>)
    ensures
        chunk_views(copy@) == chunk_views(chunks@),
{
    let mut copy: Vec<DocumentChunk> = Vec::new();
    let mut i: usize = 0;
    while i < chunks.len()
        invariant
            i <= chunks.len(),
            chunk_views(copy@) == chunk_views(chunks@).take(i as int),
        decreases chunks.len() - i,
    {
        let ghost before = copy@;
        let chunk = chunks[i].clone();
        copy.push(chunk);
        assert(chunk_views(copy@) == chunk_views(before).push(chunks@[i as int]@));
        i += 1;
    }
    assert(chunk_views(chunks@).take(i as int) == chunk_views(chunks@));
    copy
}

impl Clone for Document {
    fn clone(&self) -> (copy: Self)
        ensures
            copy@ == self@,
    {
        Document {
            id: self.id.clone(),
            filename: self.filename.clone(),
            content: self.content.clone(),
            chunks: clone_chunks(&self.chunks),
        }
    }
}

/// A retrieved chunk with its similarity score. The score is an integer
/// that orders as the similarity does: of two chunks the one with the
/// larger score is the more similar.
#[derive(Debug, PartialEq, Eq)]
pub struct RankedChunk {
    pub chunk: DocumentChunk,
    pub score: u32,
}

/// The mathematical content of a `RankedChunk`.
pub struct RankedChunkView {
    pub chunk: ChunkView,
    pub score: u32,
}

impl View for RankedChunk {
    type V = RankedChunkView;

    open spec fn view(&self) -> RankedChunkView {
        RankedChunkView { chunk: self.chunk@, score: self.score }
    }
}

/// The views of a sequence of ranked chunks.
pub open spec fn ranked_views(ranked: Seq<RankedChunk>) -> Seq<RankedChunkView> {
    Seq::new(ranked.len(), |i: int| ranked[i]@)
}

/// What links a part of an answer to its source.
#[derive(Debug, PartialEq, Eq)]
pub struct Citation {
    pub document: String,
    pub text_excerpt: String,
    pub confidence_score: u32,
}

/// The mathematical content of a `Citation`.
pub struct CitationView {
    pub document: Seq<char>,
    pub text_excerpt: Seq<char>,
    pub confidence_score: u32,
}

impl View for Citation {
    type V = CitationView;

    open spec fn view(&self) -> CitationView {
        CitationView {
            document: self.document@,
            text_excerpt: self.text_excerpt@,
            confidence_score: self.confidence_score,
        }
    }
}

impl Clone for Citation {
    fn clone(&self) -> (copy: Self)
        ensures
            copy@ == self@,
    {
        Citation {
            document: self.document.clone(),
            text_excerpt: self.text_excerpt.clone(),
            confidence_score: self.confidence_score,
        }
    }
}

/// The views of a sequence of citations.
pub open spec fn citation_views(citations: Seq<Citation>) -> Seq<CitationView> {
    Seq::new(citations.len(), |i: int| citations[i]@)
}

/// A question with the number of chunks to retrieve for it.
#[derive(Debug, PartialEq, Eq)]
pub struct QueryRequest {
    pub query: String,
    pub max_results: Option<usize>,
}

/// The answer to a question with its sources.
#[derive(Debug, PartialEq, Eq)]
pub struct QueryResponse {
    pub status: String,
    pub response: String,
    pub citations: Vec<Citation>,
    pub processing_time_ms: u128,
}

/// The mathematical content of a `QueryResponse`.
pub struct QueryResponseView {
    pub status: Seq<char>,
    pub response: Seq<char>,
    pub citations: Seq<CitationView>,
    pub processing_time_ms: u128,
}

impl View for QueryResponse {
    type V = QueryResponseView;

    open spec fn view(&self) -> QueryResponseView {
        QueryResponseView {
            status: self.status@,
            response: self.response@,
            citations: citation_views(self.citations@),
            processing_time_ms: self.processing_time_ms,
        }
    }
}

/// What is reported when a request fails.
#[derive(Debug, PartialEq, Eq)]
pub struct ErrorResponse {
    pub status: String,
    pub error: String,
}

/// One piece of text of a generation request or response.
#[derive(Debug, PartialEq, Eq)]
pub struct GeminiPart {
    pub text: String,
}

/// The pieces of text of one message.
#[derive(Debug, PartialEq, Eq)]
pub struct GeminiContent {
    pub parts: Vec<GeminiPart>,
}

/// How the generation service is to sample. The temperature is counted in
/// hundredths.
#[derive(Debug, Clone, Copy, PartialEq, Eq, Structural)]
pub struct GeminiGenerationConfig {
    pub temperature_hundredths: u32,
    pub max_output_tokens: u32,
}

/// What is sent to the generation service.
#[derive(Debug, PartialEq, Eq)]
pub struct GeminiRequest {
    pub contents: Vec<GeminiContent>,
    pub generation_config: Option<GeminiGenerationConfig>,
}

/// One answer that the generation service proposes.
#[derive(Debug, PartialEq, Eq)]
pub struct GeminiCandidate {
    pub content: GeminiContent,
}

/// What the generation service sends back.
#[derive(Debug, PartialEq, Eq)]
pub struct GeminiResponse {
    pub candidates: Vec<GeminiCandidate>,
}

} // verus!
