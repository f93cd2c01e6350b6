use rag_system::corpus::{Corpus, DocumentText};
use rag_system::embedding_service::EmbeddingService;
use rag_system::gemini_service::{
    build_context,
    build_prompt,
    PROMPT_HEAD,
    PROMPT_QUESTION,
    PROMPT_TAIL,
};
use rag_system::models::{Document, TermVector};
use rag_system::query_service::embedded_chunks;

// The weighted and normalised form of a term vector.
fn weighted(vector: &TermVector, model: &EmbeddingService) -> Vec<f32> {
    let mut out = vec![0.0f32; vector.counts.len()];
    let total = vector.total_tokens as f32;
    for (i, term) in model.vocabulary().iter().enumerate() {
        let count = vector.counts[i];
        if count > 0 {
            let entry = model.term_entries().iter().find(|e| &e.term == term);
            let idf = match entry {
                Some(e) => (model.total_chunks() as f32 / e.doc_frequency as f32).ln(),
                None => 1.0,
            };
            out[i] = count as f32 / total * idf;
        }
    }
    let norm = out.iter().map(|x| x * x).sum::<f32>().sqrt();
    if norm > 0.0 {
        for value in out.iter_mut() {
            *value /= norm;
        }
    }
    out
}

fn similarity(a: &[f32], b: &[f32]) -> f32 {
    let n = a.len().min(b.len());
    let dot: f32 = a[..n].iter().zip(b[..n].iter()).map(|(x, y)| x * y).sum();
    let norm_a = a[..n].iter().map(|x| x * x).sum::<f32>().sqrt();
    let norm_b = b[..n].iter().map(|x| x * x).sum::<f32>().sqrt();
    if norm_a == 0.0 || norm_b == 0.0 {
        0.0
    } else {
        dot / (norm_a * norm_b)
    }
}

// An integer that orders as the score does.
fn score_key(score: f32) -> u32 {
    let bits = (score + 0.0).to_bits();
    if bits >> 31 == 1 {
        !bits
    } else {
        bits | 0x8000_0000
    }
}

fn scores(query: &TermVector, documents: &Vec<Document>, model: &EmbeddingService) -> Vec<u32> {
    let wanted = weighted(query, model);
    embedded_chunks(documents)
        .iter()
        .map(|chunk| {
            score_key(similarity(&wanted, &weighted(chunk.embedding.as_ref().unwrap(), model)))
        })
        .collect()
}

fn corpus(texts: &[(&str, &str)]) -> Corpus {
    let texts: Vec<DocumentText> = texts
        .iter()
        .map(|(name, text)| DocumentText { name: name.to_string(), text: text.to_string() })
        .collect();
    Corpus::build(&texts).unwrap()
}

fn cat_and_dog() -> Corpus {
    corpus(&[
        ("doc_a.pdf", "The cat sat on the mat. The mat was red."),
        ("doc_b.pdf", "Dogs bark loudly at night. Loud noises scare cats."),
    ])
}

#[test]
fn score_keys_order_as_scores_do() {
    let values = [-1.0f32, -0.5, -0.0, 0.0, 1.0e-30, 0.25, 0.5, 1.0];
    for pair in values.windows(2) {
        assert!(score_key(pair[0]) <= score_key(pair[1]));
    }
    assert_eq!(score_key(-0.0), score_key(0.0));
    assert!(score_key(0.25) < score_key(0.5));
}

#[test]
fn query_retrieves_the_chunk_that_shares_its_terms() {
    let corpus = cat_and_dog();
    let (documents, service) = (corpus.documents(), corpus.query_service());
    let query = service.embed_query("red mat");
    let model = service.embedding_service();
    let keys = scores(&query, documents, model);
    let ranked = service.find_relevant_chunks(&keys, documents, 1).unwrap();
    assert_eq!(ranked.len(), 1);
    assert!(ranked[0].chunk.content.contains("mat was red"));
    assert_eq!(ranked[0].chunk.id, documents[0].chunks[0].id);
    assert!(ranked[0].score > score_key(0.0));
    let citations = service.create_citations(&ranked, documents);
    assert_eq!(citations.len(), 1);
    assert_eq!(citations[0].document, "doc_a.pdf");
    assert_eq!(citations[0].text_excerpt, "The cat sat on the mat. The mat was red.");
    assert_eq!((ranked[0].chunk.start_position, ranked[0].chunk.end_position), (0, 40));
    assert_eq!(citations[0].confidence_score, ranked[0].score);
}

#[test]
fn weighted_vector_has_unit_length_or_is_zero() {
    let corpus = cat_and_dog();
    let (documents, service) = (corpus.documents(), corpus.query_service());
    let model = service.embedding_service();
    let hit = weighted(&service.embed_query("red mat"), model);
    let length = hit.iter().map(|x| x * x).sum::<f32>().sqrt();
    assert!((length - 1.0).abs() < 1.0e-5);
    let miss = weighted(&service.embed_query("birds fly south"), model);
    assert!(miss.iter().all(|x| *x == 0.0));
    assert_eq!(miss.len(), 100);
    for chunk in embedded_chunks(documents) {
        let own = weighted(chunk.embedding.as_ref().unwrap(), model);
        let length = own.iter().map(|x| x * x).sum::<f32>().sqrt();
        assert!((length - 1.0).abs() < 1.0e-5);
    }
}

#[test]
fn chunk_is_most_similar_to_itself() {
    let corpus = cat_and_dog();
    let (documents, service) = (corpus.documents(), corpus.query_service());
    let model = service.embedding_service();
    let own = documents[1].chunks[0].embedding.clone().unwrap();
    let wanted = weighted(&own, model);
    let value = similarity(&wanted, &weighted(&own, model));
    assert!((value - 1.0).abs() < 1.0e-5);
    let keys = scores(&own, documents, model);
    let ranked = service.find_relevant_chunks(&keys, documents, 2).unwrap();
    assert_eq!(ranked[0].chunk.id, documents[1].chunks[0].id);
    assert!(ranked[0].score > ranked[1].score);
}

#[test]
fn empty_corpus_is_answered_without_citations() {
    let corpus = corpus(&[]);
    let (documents, service) = (corpus.documents(), corpus.query_service());
    assert_eq!(documents.len(), 0);
    let query = service.embed_query("anything");
    assert_eq!(query.counts, vec![0; 100]);
    let keys = scores(&query, documents, service.embedding_service());
    assert_eq!(keys.len(), 0);
    let ranked = service.find_relevant_chunks(&keys, documents, 5).unwrap();
    assert_eq!(ranked.len(), 0);
    // The generation service is still asked, with an empty context, and
    // its answer is passed through.
    let context = build_context(&ranked, documents);
    assert_eq!(context, "");
    let prompt = build_prompt("anything", &context);
    assert_eq!(prompt, format!("{}{}anything{}", PROMPT_HEAD, PROMPT_QUESTION, PROMPT_TAIL));
    let response =
        service.build_response("I cannot answer that.".to_string(), &ranked, documents, 3);
    assert_eq!(response.status, "success");
    assert_eq!(response.response, "I cannot answer that.");
    assert_eq!(response.citations.len(), 0);
    assert_eq!(response.processing_time_ms, 3);
}

#[test]
fn query_without_tokens_leaves_the_chunks_in_corpus_order() {
    let corpus = corpus(&[
        ("doc_a.pdf", "The cat sat on the mat. The mat was red."),
        ("doc_b.pdf", "Dogs bark loudly at night. Loud noises scare cats."),
        ("doc_c.pdf", "Birds sing early. Mornings are bright."),
    ]);
    let (documents, service) = (corpus.documents(), corpus.query_service());
    let query = service.embed_query("a an it");
    assert_eq!(query, TermVector { counts: vec![0; 100], total_tokens: 0 });
    let keys = scores(&query, documents, service.embedding_service());
    assert_eq!(keys, vec![score_key(0.0); 3]);
    let ranked = service.find_relevant_chunks(&keys, documents, 10).unwrap();
    let names: Vec<&str> = ranked.iter().map(|r| r.chunk.id.as_str()).collect();
    let expected: Vec<&str> = documents.iter().map(|d| d.chunks[0].id.as_str()).collect();
    assert_eq!(names, expected);
    assert!(ranked.iter().all(|r| r.score == score_key(0.0)));
}

#[test]
fn term_of_every_chunk_weighs_nothing() {
    // "shared" occurs in both chunks, so its weight is ln(2 / 2) = 0: a
    // query of that term alone has the zero vector though it matches the
    // vocabulary.
    let corpus = corpus(&[
        ("doc_a.pdf", "Shared words about apples."),
        ("doc_b.pdf", "Shared words about pears."),
    ]);
    let (documents, service) = (corpus.documents(), corpus.query_service());
    let model = service.embedding_service();
    let query = service.embed_query("shared");
    assert_eq!(query.counts.iter().sum::<usize>(), 1);
    assert!(weighted(&query, model).iter().all(|x| *x == 0.0));
    let keys = scores(&query, documents, model);
    assert_eq!(keys, vec![score_key(0.0); 2]);
}

#[test]
fn corpus_holds_every_document_with_embedded_chunks() {
    let corpus = cat_and_dog();
    let documents = corpus.documents();
    assert_eq!(documents.len(), 2);
    assert_eq!(documents[0].filename, "doc_a.pdf");
    assert_eq!(documents[0].content, "The cat sat on the mat. The mat was red.");
    assert_eq!(documents[1].filename, "doc_b.pdf");
    assert_eq!(documents[1].chunks.len(), 1);
    assert_eq!(documents[1].chunks[0].content, "Dogs bark loudly at night. Loud noises scare cats.");
    assert_eq!((documents[1].chunks[0].start_position, documents[1].chunks[0].end_position), (0, 50));
    assert!(documents.iter().all(|d| d.chunks.iter().all(|c| c.embedding.is_some())));
    let model = corpus.query_service().embedding_service();
    assert_eq!(model.total_chunks(), 2);
    assert_eq!(model.vocabulary().len(), 14);
    assert_eq!(embedded_chunks(documents).len(), 2);
}
