use rag_system::embedding_service::{
    count_occurrences,
    term_vector,
    EmbeddingService,
    MIN_DIMENSIONS,
    VOCABULARY_LIMIT,
};
use rag_system::models::{Document, DocumentChunk, TermVector};

fn owned(list: &[&str]) -> Vec<String> {
    list.iter().map(|s| s.to_string()).collect()
}

fn chunk(id: &str, content: &str) -> DocumentChunk {
    DocumentChunk {
        id: id.to_string(),
        content: content.to_string(),
        start_position: 0,
        end_position: content.chars().count(),
        embedding: None,
    }
}

fn document(name: &str, chunks: Vec<DocumentChunk>) -> Document {
    Document {
        id: format!("id-{}", name),
        filename: name.to_string(),
        content: chunks.iter().map(|c| c.content.clone()).collect::<Vec<String>>().join(" "),
        chunks,
    }
}

fn two_documents() -> Vec<Document> {
    vec![
        document("a.pdf", vec![chunk("a0", "The cat sat on the mat The mat was red.")]),
        document("b.pdf", vec![chunk("b0", "Dogs bark loudly at night Loud noises scare cats.")]),
    ]
}

fn counts_with(len: usize, entries: &[(usize, usize)]) -> Vec<usize> {
    let mut counts = vec![0; len];
    for (i, n) in entries {
        counts[*i] = *n;
    }
    counts
}

#[test]
fn limits_are_as_documented() {
    assert_eq!(VOCABULARY_LIMIT, 1000);
    assert_eq!(MIN_DIMENSIONS, 100);
}

#[test]
fn new_service_has_no_vocabulary() {
    let service = EmbeddingService::new();
    assert_eq!(service.vocabulary(), &Vec::<String>::new());
    assert_eq!(service.term_entries().len(), 0);
    assert_eq!(service.total_chunks(), 0);
}

#[test]
fn occurrences_are_counted_exactly() {
    let tokens = owned(&["mat", "cat", "mat", "mat"]);
    assert_eq!(count_occurrences(&tokens, &"mat".to_string()), 3);
    assert_eq!(count_occurrences(&tokens, &"cat".to_string()), 1);
    assert_eq!(count_occurrences(&tokens, &"dog".to_string()), 0);
    assert_eq!(count_occurrences(&Vec::new(), &"dog".to_string()), 0);
}

#[test]
fn term_vector_counts_vocabulary_terms_by_index() {
    let vocabulary = owned(&["the", "mat", "cat"]);
    let tokens = owned(&["mat", "red", "mat", "cat", "was"]);
    let vector = term_vector(&tokens, &vocabulary);
    assert_eq!(
        vector,
        TermVector { counts: counts_with(100, &[(1, 2), (2, 1)]), total_tokens: 5 }
    );
}

#[test]
fn term_vector_is_as_long_as_a_large_vocabulary() {
    let vocabulary: Vec<String> = (0..150).map(|i| format!("term{}", i)).collect();
    let tokens = owned(&["term149", "term0", "term149"]);
    let vector = term_vector(&tokens, &vocabulary);
    assert_eq!(
        vector,
        TermVector { counts: counts_with(150, &[(0, 1), (149, 2)]), total_tokens: 3 }
    );
}

#[test]
fn vocabulary_ranks_terms_by_count_then_first_occurrence() {
    let mut service = EmbeddingService::new();
    let mut documents = two_documents();
    service.generate_embeddings(&mut documents);
    assert_eq!(
        service.vocabulary(),
        &owned(&[
            "the", "mat", "cat", "sat", "was", "red", "dogs", "bark", "loudly", "night", "loud",
            "noises", "scare", "cats",
        ])
    );
    assert_eq!(service.total_chunks(), 2);
    let entries = service.term_entries();
    assert_eq!(entries.len(), 14);
    assert_eq!((entries[0].term.as_str(), entries[0].count, entries[0].doc_frequency), ("the", 3, 1));
    assert_eq!((entries[3].term.as_str(), entries[3].count, entries[3].doc_frequency), ("mat", 2, 1));
    assert_eq!((entries[13].term.as_str(), entries[13].count, entries[13].doc_frequency), ("cats", 1, 1));
}

#[test]
fn every_chunk_gets_its_term_vector() {
    let mut service = EmbeddingService::new();
    let mut documents = two_documents();
    let before = two_documents();
    service.generate_embeddings(&mut documents);
    assert_eq!(documents.len(), 2);
    for (old, new) in before.iter().zip(documents.iter()) {
        assert_eq!((&old.id, &old.filename, &old.content), (&new.id, &new.filename, &new.content));
        assert_eq!(old.chunks.len(), new.chunks.len());
        assert_eq!(old.chunks[0].id, new.chunks[0].id);
        assert_eq!(old.chunks[0].content, new.chunks[0].content);
        assert_eq!(old.chunks[0].end_position, new.chunks[0].end_position);
    }
    assert_eq!(
        documents[0].chunks[0].embedding,
        Some(TermVector {
            counts: counts_with(100, &[(0, 3), (1, 2), (2, 1), (3, 1), (4, 1), (5, 1)]),
            total_tokens: 9,
        })
    );
    assert_eq!(
        documents[1].chunks[0].embedding,
        Some(TermVector {
            counts: counts_with(
                100,
                &[(6, 1), (7, 1), (8, 1), (9, 1), (10, 1), (11, 1), (12, 1), (13, 1)]
            ),
            total_tokens: 8,
        })
    );
}

#[test]
fn query_is_embedded_over_the_corpus_vocabulary() {
    let mut service = EmbeddingService::new();
    let mut documents = two_documents();
    service.generate_embeddings(&mut documents);
    assert_eq!(
        service.embed_query("red mat"),
        TermVector { counts: counts_with(100, &[(1, 1), (5, 1)]), total_tokens: 2 }
    );
    assert_eq!(
        service.create_tfidf_embedding("Unknown words only, MAT excepted"),
        TermVector { counts: counts_with(100, &[(1, 1)]), total_tokens: 5 }
    );
}

#[test]
fn embedding_the_same_text_twice_gives_the_same_vector() {
    let mut service = EmbeddingService::new();
    let mut documents = two_documents();
    service.generate_embeddings(&mut documents);
    let text = "The red mat scares loud dogs at night";
    assert_eq!(service.embed_query(text), service.embed_query(text));
}

#[test]
fn text_without_vocabulary_terms_gives_the_zero_vector() {
    let mut service = EmbeddingService::new();
    let mut documents = two_documents();
    service.generate_embeddings(&mut documents);
    assert_eq!(
        service.embed_query("a an it"),
        TermVector { counts: vec![0; 100], total_tokens: 0 }
    );
    assert_eq!(
        service.embed_query("birds fly"),
        TermVector { counts: vec![0; 100], total_tokens: 2 }
    );
}

#[test]
fn empty_corpus_gives_an_empty_model() {
    let mut service = EmbeddingService::new();
    let mut documents: Vec<Document> = Vec::new();
    service.generate_embeddings(&mut documents);
    assert_eq!(documents.len(), 0);
    assert_eq!(service.vocabulary().len(), 0);
    assert_eq!(service.term_entries().len(), 0);
    assert_eq!(service.total_chunks(), 0);
    assert_eq!(
        service.embed_query("anything"),
        TermVector { counts: vec![0; 100], total_tokens: 1 }
    );
}

#[test]
fn vocabulary_maps_terms_to_indices() {
    let mut service = EmbeddingService::new();
    let mut documents = two_documents();
    service.generate_embeddings(&mut documents);
    assert_eq!(service.vocabulary_index(&"the".to_string()), Some(0));
    assert_eq!(service.vocabulary_index(&"mat".to_string()), Some(1));
    assert_eq!(service.vocabulary_index(&"cats".to_string()), Some(13));
    assert_eq!(service.vocabulary_index(&"bird".to_string()), None);
    assert_eq!(service.document_frequency(&"mat".to_string()), Some(1));
    assert_eq!(service.document_frequency(&"bird".to_string()), None);
    assert_eq!(EmbeddingService::new().vocabulary_index(&"the".to_string()), None);
}

#[test]
fn document_frequency_counts_chunks_not_occurrences() {
    let mut service = EmbeddingService::new();
    let mut documents = vec![
        document("a.pdf", vec![chunk("a0", "alpha alpha beta"), chunk("a1", "alpha gamma")]),
        document("b.pdf", vec![chunk("b0", "gamma gamma gamma gamma")]),
    ];
    service.generate_embeddings(&mut documents);
    assert_eq!(service.total_chunks(), 3);
    assert_eq!(service.vocabulary(), &owned(&["gamma", "alpha", "beta"]));
    let entries = service.term_entries();
    assert_eq!((entries[0].term.as_str(), entries[0].count, entries[0].doc_frequency), ("alpha", 3, 2));
    assert_eq!((entries[1].term.as_str(), entries[1].count, entries[1].doc_frequency), ("beta", 1, 1));
    assert_eq!((entries[2].term.as_str(), entries[2].count, entries[2].doc_frequency), ("gamma", 5, 2));
    assert_eq!(service.document_frequency(&"alpha".to_string()), Some(2));
    assert_eq!(service.document_frequency(&"beta".to_string()), Some(1));
}

#[test]
fn vocabulary_keeps_the_thousand_most_frequent_terms() {
    let mut words: Vec<String> = (0..1001).map(|i| format!("t{:04}", i)).collect();
    words.push("t1000".to_string());
    words.push("t1000".to_string());
    let content = words.join(" ");
    let mut service = EmbeddingService::new();
    let mut documents = vec![document("big.pdf", vec![chunk("c0", &content)])];
    service.generate_embeddings(&mut documents);
    let vocabulary = service.vocabulary();
    assert_eq!(vocabulary.len(), 1000);
    assert_eq!(vocabulary[0], "t1000");
    assert_eq!(vocabulary[1], "t0000");
    assert_eq!(vocabulary[999], "t0998");
    assert!(!vocabulary.contains(&"t0999".to_string()));
    // The term table keeps the terms that the vocabulary leaves out.
    assert_eq!(service.term_entries().len(), 1001);
    let vector = documents[0].chunks[0].embedding.as_ref().unwrap();
    assert_eq!(vector.counts.len(), 1000);
    assert_eq!(vector.counts[0], 3);
    assert_eq!(vector.counts[999], 1);
    assert_eq!(vector.total_tokens, 1003);
}
