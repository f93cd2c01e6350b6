use crate::chunker::SpanView;
use crate::document_processor::{
    are_chunks_of_spans,
    chunk_layout,
    is_chunk_of_span,
    DocumentProcessor,
    ID_LENGTH,
};
use crate::embedding_service::{
    all_chunks,
    chunk_tokens,
    corpus_of,
    is_embedded_chunk,
    is_embedded_document,
    is_term_vector,
    EmbeddingService,
};
use crate::models::{document_views, ChunkView, Document, DocumentView};
use crate::query_service::QueryService;
use crate::text::trimmed;
use crate::tokenizer::tokens_of;
use vstd::prelude::*;

verus! {

/// The name and the text of a document that is to join a corpus.
#[derive(Debug, PartialEq, Eq)]
pub struct DocumentText {
    pub name: String,
    pub text: String,
}

/// A corpus as queries see it: the documents with their embedded chunks,
/// and the service that holds the term model of these documents. It is
/// built in one go and does not change afterwards.
pub struct Corpus {
    documents: Vec<Document>,
    service: QueryService,
}

/// The chunk carries the term vector of its content over the vocabulary.
pub open spec fn has_term_vector(chunk: ChunkView, vocabulary: Seq<Seq<char>>) -> bool {
    chunk.embedding matches Some(v) && is_term_vector(v, tokens_of(chunk.content), vocabulary)
}

/// The chunk is the span with its text trimmed and carries its term vector
/// over the vocabulary.
pub open spec fn is_embedded_span(
    chunk: ChunkView,
    span: SpanView,
    vocabulary: Seq<Seq<char>>,
) -> bool {
    &&& chunk.id.len() == ID_LENGTH
    &&& chunk.content == trimmed(span.text)
    &&& chunk.start_position == span.start
    &&& chunk.end_position == span.end()
    &&& has_term_vector(chunk, vocabulary)
}

/// The document has the given name and text, and its chunks are those of
/// the layout of the text, each with its term vector over the vocabulary.
pub open spec fn is_built_document(
    document: DocumentView,
    name: Seq<char>,
    text: Seq<char>,
    vocabulary: Seq<Seq<char>>,
) -> bool {
    &&& document.id.len() == ID_LENGTH
    &&& document.filename == name
    &&& document.content == text
    &&& chunk_layout(text) matches Some(spans)
    &&& document.chunks.len() == spans.len()
    &&& forall|k: int|
        0 <= k < spans.len() ==> is_embedded_span(#[trigger] document.chunks[k], spans[k], vocabulary)
}

/// Attaching embeddings changes no text, so the corpus that the documents
/// form stays the same.
pub proof fn lemma_embedding_keeps_corpus(
    before: Seq<DocumentView>,
    after: Seq<DocumentView>,
    vocabulary: Seq<Seq<char>>,
)
    requires
        after.len() == before.len(),
        forall|d: int|
            0 <= d < before.len() ==> is_embedded_document(before[d], #[trigger] after[d], vocabulary),
    ensures
        corpus_of(after) == corpus_of(before),
    decreases before.len(),
{
    if before.len() > 0 {
        let shorter_before = before.drop_last();
        let shorter_after = after.drop_last();
        assert forall|d: int| 0 <= d < shorter_before.len() implies is_embedded_document(
            shorter_before[d],
            #[trigger] shorter_after[d],
            vocabulary,
        ) by {
            assert(is_embedded_document(before[d], after[d], vocabulary));
        }
        lemma_embedding_keeps_corpus(shorter_before, shorter_after, vocabulary);
        let last_before = before.last();
        let last_after = after.last();
        assert(is_embedded_document(before[before.len() - 1], after[before.len() - 1], vocabulary));
        let head_before = all_chunks(shorter_before);
        let head_after = all_chunks(shorter_after);
        assert(chunk_tokens(head_before) == chunk_tokens(head_after));
        assert(chunk_tokens(head_before).len() == head_before.len());
        assert(chunk_tokens(head_after).len() == head_after.len());
        assert(head_before.len() == head_after.len());
        assert forall|k: int| 0 <= k < last_before.chunks.len() implies tokens_of(
            last_after.chunks[k].content,
        ) == tokens_of(last_before.chunks[k].content) by {
            assert(is_embedded_chunk(last_before.chunks[k], last_after.chunks[k], vocabulary));
        }
        assert forall|k: int| 0 <= k < all_chunks(after).len() implies chunk_tokens(
            all_chunks(after),
        )[k] == chunk_tokens(all_chunks(before))[k] by {
            if k < head_after.len() {
                assert(chunk_tokens(head_after)[k] == chunk_tokens(head_before)[k]);
            } else {
                assert(all_chunks(after)[k] == last_after.chunks[k - head_after.len()]);
                assert(all_chunks(before)[k] == last_before.chunks[k - head_before.len()]);
            }
        }
        assert(chunk_tokens(all_chunks(after)) =~= chunk_tokens(all_chunks(before)));
    } else {
        assert(all_chunks(after) =~= all_chunks(before));
    }
}

impl Corpus {
    /// The documents of the corpus.
    pub closed spec fn document_list(&self) -> Seq<DocumentView> {
        document_views(self.documents@)
    }

    /// The service that answers queries against the corpus.
    pub closed spec fn query_model(&self) -> QueryService {
        self.service
    }

    /// The service holds the term model of the documents, and every chunk
    /// carries its term vector over the vocabulary of that model.
    pub open spec fn wf(&self) -> bool {
        &&& self.query_model().model().models(corpus_of(self.document_list()))
        &&& forall|d: int, k: int|
            0 <= d < self.document_list().len() && 0 <= k < self.document_list()[d].chunks.len()
                ==> has_term_vector(
                #[trigger] self.document_list()[d].chunks[k],
                self.query_model().model().vocabulary_terms(),
            )
    }

    /// The documents of the corpus.
    pub fn documents(&self) -> (documents: &Vec<Document>)
        ensures
            document_views(documents@) == self.document_list(),
    {
        &self.documents
    }

    /// The service that answers queries against the corpus.
    pub fn query_service(&self) -> (service: &QueryService)
        ensures
            *service == self.query_model(),
    {
        &self.service
    }

    /// Builds a corpus from the names and texts of its documents: every
    /// text is laid out in chunks, the term model of all chunks is built,
    /// and every chunk gets its term vector. There is no corpus only if the
    /// layout of one of the texts fails.
    pub fn build(texts: &Vec<DocumentText>) -> (result: Option<Corpus>)
        ensures
            match result {
                Some(corpus) => {
                    &&& corpus.wf()
                    &&& corpus.document_list().len() == texts@.len()
                    &&& forall|d: int|
                        0 <= d < texts@.len() ==> is_built_document(
                            #[trigger] corpus.document_list()[d],
                            texts@[d].name@,
                            texts@[d].text@,
                            corpus.query_model().model().vocabulary_terms(),
                        )
                },
                None => exists|d: int|
                    0 <= d < texts@.len() && chunk_layout((#[trigger] texts@[d]).text@) is None,
            },
    {
        let processor = DocumentProcessor::new();
        let mut documents: Vec<Document> = Vec::new();
        let mut d: usize = 0;
        while d < texts.len()
            invariant
                d <= texts.len(),
                documents@.len() == d,
                forall|i: int|
                    0 <= i < d ==> {
                        &&& (#[trigger] documents@[i])@.id.len() == ID_LENGTH
                        &&& documents@[i]@.filename == texts@[i].name@
                        &&& documents@[i]@.content == texts@[i].text@
                        &&& chunk_layout(texts@[i].text@) matches Some(spans)
                            && are_chunks_of_spans(documents@[i]@.chunks, spans)
                    },
            decreases texts.len() - d,
        {
            match processor.build_document(texts[d].name.clone(), texts[d].text.clone()) {
                Some(document) => {
                    documents.push(document);
                },
                None => {
                    return None;
                },
            }
            d += 1;
        }
        let ghost before = document_views(documents@);
        let mut model = EmbeddingService::new();
        model.generate_embeddings(&mut documents);
        let ghost vocabulary = model.vocabulary_terms();
        let ghost after = document_views(documents@);
        proof {
            lemma_embedding_keeps_corpus(before, after, vocabulary);
            assert forall|i: int| 0 <= i < texts@.len() implies is_built_document(
                #[trigger] after[i],
                texts@[i].name@,
                texts@[i].text@,
                vocabulary,
            ) by {
                assert(is_embedded_document(before[i], after[i], vocabulary));
                let spans = chunk_layout(texts@[i].text@)->0;
                assert forall|k: int| 0 <= k < spans.len() implies is_embedded_span(
                    #[trigger] after[i].chunks[k],
                    spans[k],
                    vocabulary,
                ) by {
                    assert(is_embedded_chunk(before[i].chunks[k], after[i].chunks[k], vocabulary));
                    assert(is_chunk_of_span(before[i].chunks[k], spans[k]));
                }
            }
            assert forall|i: int, k: int|
                0 <= i < after.len() && 0 <= k < after[i].chunks.len() implies has_term_vector(
                #[trigger] after[i].chunks[k],
                vocabulary,
            ) by {
                assert(is_embedded_document(before[i], after[i], vocabulary));
                assert(is_embedded_chunk(before[i].chunks[k], after[i].chunks[k], vocabulary));
            }
        }
        Some(Corpus { documents, service: QueryService::new(model) })
    }
}

} // verus!
