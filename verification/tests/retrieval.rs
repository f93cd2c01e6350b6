use rag_system::embedding_service::EmbeddingService;
use rag_system::models::{Citation, Document, DocumentChunk, RankedChunk, TermVector};
use rag_system::query_service::{
    embedded_chunks,
    excerpt,
    find_owner,
    holds_chunk,
    QueryService,
    RetrievalError,
    EXCERPT_LENGTH,
};

fn vector() -> Option<TermVector> {
    Some(TermVector { counts: vec![0; 100], total_tokens: 0 })
}

fn chunk(id: &str, content: &str, embedding: Option<TermVector>) -> DocumentChunk {
    DocumentChunk {
        id: id.to_string(),
        content: content.to_string(),
        start_position: 0,
        end_position: content.chars().count(),
        embedding,
    }
}

fn document(name: &str, chunks: Vec<DocumentChunk>) -> Document {
    Document { id: format!("id-{}", name), filename: name.to_string(), content: String::new(), chunks }
}

fn corpus() -> Vec<Document> {
    vec![
        document(
            "a.pdf",
            vec![chunk("a0", "first", vector()), chunk("a1", "not embedded", None)],
        ),
        document("b.pdf", Vec::new()),
        document("c.pdf", vec![chunk("c0", "second", vector()), chunk("c1", "third", vector())]),
    ]
}

fn service() -> QueryService {
    QueryService::new(EmbeddingService::new())
}

fn ids(ranked: &Vec<RankedChunk>) -> Vec<(&str, u32)> {
    ranked.iter().map(|r| (r.chunk.id.as_str(), r.score)).collect()
}

#[test]
fn chunks_without_embedding_take_no_part() {
    let found = embedded_chunks(&corpus());
    let ids: Vec<&str> = found.iter().map(|c| c.id.as_str()).collect();
    assert_eq!(ids, vec!["a0", "c0", "c1"]);
}

#[test]
fn chunks_are_ranked_by_descending_score() {
    let ranked = service().find_relevant_chunks(&vec![5, 9, 7], &corpus(), 3).unwrap();
    assert_eq!(ids(&ranked), vec![("c0", 9), ("c1", 7), ("a0", 5)]);
    assert_eq!(ranked[0].chunk, corpus()[2].chunks[0]);
}

#[test]
fn equal_scores_keep_corpus_order() {
    let ranked = service().find_relevant_chunks(&vec![5, 9, 5], &corpus(), 3).unwrap();
    assert_eq!(ids(&ranked), vec![("c0", 9), ("a0", 5), ("c1", 5)]);
}

#[test]
fn result_is_cut_to_the_number_asked_for() {
    let ranked = service().find_relevant_chunks(&vec![5, 9, 7], &corpus(), 2).unwrap();
    assert_eq!(ids(&ranked), vec![("c0", 9), ("c1", 7)]);
    let ranked = service().find_relevant_chunks(&vec![5, 9, 7], &corpus(), 1).unwrap();
    assert_eq!(ids(&ranked), vec![("c0", 9)]);
}

#[test]
fn asking_for_none_gives_none() {
    let ranked = service().find_relevant_chunks(&vec![5, 9, 7], &corpus(), 0).unwrap();
    assert_eq!(ranked.len(), 0);
}

#[test]
fn asking_for_more_than_there_are_gives_all() {
    let ranked = service().find_relevant_chunks(&vec![5, 9, 7], &corpus(), 50).unwrap();
    assert_eq!(ranked.len(), 3);
    let ranked = service().find_relevant_chunks(&vec![5, 9, 7], &corpus(), usize::MAX).unwrap();
    assert_eq!(ranked.len(), 3);
}

#[test]
fn scores_must_match_the_embedded_chunks() {
    assert_eq!(
        service().find_relevant_chunks(&vec![5, 9], &corpus(), 3),
        Err(RetrievalError::ScoreCountMismatch)
    );
    assert_eq!(
        service().find_relevant_chunks(&vec![5, 9, 7, 1], &corpus(), 3),
        Err(RetrievalError::ScoreCountMismatch)
    );
}

#[test]
fn empty_corpus_gives_an_empty_result() {
    let ranked = service().find_relevant_chunks(&Vec::new(), &Vec::new(), 5).unwrap();
    assert_eq!(ranked.len(), 0);
}

#[test]
fn owner_is_the_first_document_that_holds_the_chunk() {
    let mut documents = corpus();
    documents.push(document("d.pdf", vec![chunk("a0", "same id again", vector())]));
    assert_eq!(find_owner(&documents, &"a0".to_string()), Some(0));
    assert_eq!(find_owner(&documents, &"a1".to_string()), Some(0));
    assert_eq!(find_owner(&documents, &"c1".to_string()), Some(2));
    assert_eq!(find_owner(&documents, &"zz".to_string()), None);
    assert!(holds_chunk(&documents[2], &"c0".to_string()));
    assert!(!holds_chunk(&documents[1], &"c0".to_string()));
}

#[test]
fn short_text_is_quoted_whole() {
    assert_eq!(EXCERPT_LENGTH, 200);
    assert_eq!(excerpt("short"), "short");
    assert_eq!(excerpt(""), "");
    let exact: String = std::iter::repeat('x').take(200).collect();
    assert_eq!(excerpt(&exact), exact);
}

#[test]
fn long_text_is_cut_after_two_hundred_characters() {
    let long: String = std::iter::repeat('x').take(201).collect();
    let head: String = std::iter::repeat('x').take(200).collect();
    assert_eq!(excerpt(&long), format!("{}...", head));
    let accented: String = std::iter::repeat('é').take(250).collect();
    let accented_head: String = std::iter::repeat('é').take(200).collect();
    assert_eq!(excerpt(&accented), format!("{}...", accented_head));
    // 150 characters of two bytes each are 300 bytes, yet no more than 200
    // characters.
    let wide: String = std::iter::repeat('é').take(150).collect();
    assert_eq!(excerpt(&wide), wide);
}

#[test]
fn citations_name_the_document_and_carry_the_score() {
    let documents = corpus();
    let ranked = service().find_relevant_chunks(&vec![5, 9, 7], &documents, 2).unwrap();
    assert_eq!(
        service().create_citations(&ranked, &documents),
        vec![
            Citation {
                document: "c.pdf".to_string(),
                text_excerpt: "second".to_string(),
                confidence_score: 9,
            },
            Citation {
                document: "c.pdf".to_string(),
                text_excerpt: "third".to_string(),
                confidence_score: 7,
            },
        ]
    );
}

#[test]
fn chunk_of_no_document_gets_no_citation() {
    let documents = corpus();
    let ranked = vec![
        RankedChunk { chunk: chunk("gone", "orphan", vector()), score: 3 },
        RankedChunk { chunk: chunk("a0", "first", vector()), score: 2 },
    ];
    assert_eq!(
        service().create_citations(&ranked, &documents),
        vec![Citation {
            document: "a.pdf".to_string(),
            text_excerpt: "first".to_string(),
            confidence_score: 2,
        }]
    );
}

#[test]
fn response_reports_success_with_answer_and_citations() {
    let documents = corpus();
    let ranked = service().find_relevant_chunks(&vec![5, 9, 7], &documents, 1).unwrap();
    let response = service().build_response("An answer".to_string(), &ranked, &documents, 42);
    assert_eq!(response.status, "success");
    assert_eq!(response.response, "An answer");
    assert_eq!(response.processing_time_ms, 42);
    assert_eq!(response.citations.len(), 1);
    assert_eq!(response.citations[0].document, "c.pdf");
}
