use rag_system::payloads::{HackRxRequest, QueryPayload, RagResponse};
use rag_system::rag_query::{
    answer_placeholder,
    context_snippets,
    decimal,
    digit,
    is_quotable,
    llm_prompt,
    process_rag_query,
};

fn repeat(c: char, n: usize) -> String {
    std::iter::repeat(c).take(n).collect()
}

#[test]
fn numbers_are_written_in_decimal() {
    assert_eq!(digit(0), '0');
    assert_eq!(digit(9), '9');
    assert_eq!(decimal(0), "0");
    assert_eq!(decimal(7), "7");
    assert_eq!(decimal(10), "10");
    assert_eq!(decimal(200), "200");
    assert_eq!(decimal(1234567890), "1234567890");
    assert_eq!(decimal(usize::MAX), usize::MAX.to_string());
}

#[test]
fn question_without_document_rests_on_general_knowledge() {
    let response = process_rag_query("What is Rust?".to_string(), String::new()).unwrap();
    assert_eq!(
        response,
        RagResponse {
            answer: "Based on general knowledge, the answer to your question about 'What is Rust?' is: Rust is a systems programming language focused on safety, performance, and concurrency. No specific document context was provided.".to_string(),
            context_snippets: vec!["General knowledge context used.".to_string()],
        }
    );
}

#[test]
fn short_context_is_quoted_whole() {
    let response =
        process_rag_query("fire?".to_string(), "Fire damage is covered.".to_string()).unwrap();
    assert_eq!(
        response.context_snippets,
        vec!["Context from uploaded file (first 23 chars): Fire damage is covered.".to_string()]
    );
    assert!(response.answer.starts_with(
        "Based on the provided document context and your question about 'fire?', here is the synthesized answer: "
    ));
    assert!(response.answer.ends_with("as detailed in section 4.1.2.'"));
    assert_eq!(response.answer, answer_placeholder("fire?", "Fire damage is covered."));
}

#[test]
fn long_context_is_cut_after_two_hundred_bytes() {
    let context = format!("{}{}", repeat('x', 200), repeat('y', 50));
    assert_eq!(
        context_snippets(&context),
        vec![
            format!("Context from uploaded file (first 200 chars): {}", repeat('x', 200)),
            "... (truncated)".to_string(),
        ]
    );
    let exact = repeat('x', 200);
    assert_eq!(
        context_snippets(&exact),
        vec![format!("Context from uploaded file (first 200 chars): {}", exact)]
    );
    // One hundred characters of two bytes each fill the two hundred bytes.
    let wide = format!("{}{}", repeat('é', 100), "tail");
    assert_eq!(
        context_snippets(&wide),
        vec![
            format!("Context from uploaded file (first 200 chars): {}", repeat('é', 100)),
            "... (truncated)".to_string(),
        ]
    );
}

#[test]
fn context_is_quotable_if_a_character_ends_at_the_cut() {
    assert!(is_quotable(""));
    assert!(is_quotable(&repeat('x', 500)));
    assert!(is_quotable(&repeat('é', 100)));
    assert!(is_quotable(&format!("{}éx", repeat('x', 198))));
    assert!(!is_quotable(&format!("{}é", repeat('x', 199))));
    assert!(!is_quotable(&format!("{}éx", repeat('x', 199))));
}

#[test]
fn prompt_holds_context_question_and_answer_heading() {
    assert_eq!(
        llm_prompt("Why?", "Because."),
        "### PROVIDED DOCUMENT CONTEXT:\nBecause.\n\n\n\n### USER QUESTION:\nWhy?\n\n### ANSWER:"
    );
    assert_eq!(
        llm_prompt("Why?", ""),
        "### GENERAL KNOWLEDGE BASE CONTEXT:\nGeneral information about Rust programming language is available.\nPolicies often cover terms like 'deductible', 'premium', 'claim process', and 'coverage limits'.\n\n\n\n### USER QUESTION:\nWhy?\n\n### ANSWER:"
    );
}

#[test]
fn payloads_hold_what_they_are_given() {
    let payload = QueryPayload { query: "q".to_string(), pdf_url: Some("u".to_string()) };
    assert_eq!(payload.query, "q");
    assert_eq!(payload.pdf_url, Some("u".to_string()));
    let request = HackRxRequest { documents: "d".to_string(), questions: vec!["a".to_string()] };
    assert_eq!(request.questions.len(), 1);
    assert_eq!(request.documents, "d");
}
