use rag_system::chunker::{
    checked_text_length,
    chunk_spans,
    ChunkSpan,
    Sentence,
    CHUNK_OVERLAP,
    CHUNK_SIZE,
};
use rag_system::document_processor::{
    chunk_of_span,
    join_ends,
    single_spaced,
    tidy,
    DocumentProcessor,
};

fn owned(list: &[&str]) -> Vec<String> {
    list.iter().map(|s| s.to_string()).collect()
}

fn repeat(c: char, n: usize) -> String {
    std::iter::repeat(c).take(n).collect()
}

fn text_of(span: &ChunkSpan) -> String {
    span.text.iter().collect()
}

// Sentences with their leads.
fn led(list: &[(&str, &str)]) -> Vec<Sentence> {
    list.iter()
        .map(|(lead, text)| Sentence { lead: lead.to_string(), text: text.to_string() })
        .collect()
}

// Sentences that a full stop and a space part.
fn parted(texts: &[String]) -> Vec<Sentence> {
    texts
        .iter()
        .enumerate()
        .map(|(i, text)| Sentence {
            lead: if i == 0 { String::new() } else { ". ".to_string() },
            text: text.clone(),
        })
        .collect()
}

#[test]
fn constants_are_as_documented() {
    assert_eq!(CHUNK_SIZE, 500);
    assert_eq!(CHUNK_OVERLAP, 50);
}

#[test]
fn no_sentence_gives_no_span() {
    assert_eq!(chunk_spans(&Vec::new()), Vec::new());
}

#[test]
fn empty_sentences_give_no_span() {
    assert_eq!(chunk_spans(&led(&[("", ""), ("", "")])), Vec::new());
}

#[test]
fn empty_first_sentence_leaves_its_end_at_the_start() {
    let spans = chunk_spans(&led(&[("", ""), (". ", "abc")]));
    assert_eq!(spans.len(), 1);
    assert_eq!(text_of(&spans[0]), ". abc");
    assert_eq!((spans[0].start, spans[0].end), (0, 5));
}

#[test]
fn short_sentences_share_one_span() {
    let spans = chunk_spans(&led(&[("", "The cat sat on the mat"), (". ", "The mat was red.")]));
    assert_eq!(spans.len(), 1);
    assert_eq!(text_of(&spans[0]), "The cat sat on the mat. The mat was red.");
    assert_eq!((spans[0].start, spans[0].end), (0, 40));
}

#[test]
fn span_closes_before_the_sentence_that_would_exceed_the_size() {
    let texts: Vec<String> =
        ['a', 'b', 'c', 'd', 'e', 'f'].iter().map(|c| repeat(*c, 100)).collect();
    let spans = chunk_spans(&parted(&texts));
    assert_eq!(spans.len(), 2);
    let first = format!(
        "{}. {}. {}. {}",
        repeat('a', 100),
        repeat('b', 100),
        repeat('c', 100),
        repeat('d', 100)
    );
    assert_eq!(text_of(&spans[0]), first);
    assert_eq!((spans[0].start, spans[0].end), (0, 406));
    let second = format!("{}. {}. {}", repeat('d', 50), repeat('e', 100), repeat('f', 100));
    assert_eq!(text_of(&spans[1]), second);
    assert_eq!((spans[1].start, spans[1].end), (356, 610));
}

#[test]
fn overlap_is_cut_from_the_sentence_and_not_from_its_end() {
    let spans = chunk_spans(&parted(&[repeat('a', 300), repeat('b', 300)]));
    assert_eq!(spans.len(), 2);
    assert_eq!(text_of(&spans[0]), repeat('a', 300));
    assert_eq!((spans[0].start, spans[0].end), (0, 300));
    assert_eq!(text_of(&spans[1]), format!("{}. {}", repeat('a', 50), repeat('b', 300)));
    assert_eq!((spans[1].start, spans[1].end), (250, 602));
}

#[test]
fn sentence_end_does_not_count_in_the_size_test() {
    // 250 + 250 = 500 is not beyond the size: the end between the two
    // sentences does not count, so the second sentence joins.
    let spans = chunk_spans(&parted(&[repeat('a', 250), repeat('b', 250)]));
    assert_eq!(spans.len(), 1);
    assert_eq!((spans[0].start, spans[0].end), (0, 502));
    // 249 + 252 = 501 is beyond it.
    let spans = chunk_spans(&parted(&[repeat('x', 249), repeat('y', 252)]));
    assert_eq!(spans.len(), 2);
    assert_eq!((spans[0].start, spans[0].end), (0, 249));
    assert_eq!((spans[1].start, spans[1].end), (199, 503));
}

#[test]
fn ends_inside_the_open_span_count_in_later_tests() {
    // After two sentences the open span has 200 + 2 + 200 characters; 402 +
    // 99 = 501 is beyond the size.
    let spans = chunk_spans(&parted(&[repeat('a', 200), repeat('b', 200), repeat('c', 99)]));
    assert_eq!(spans.len(), 2);
    assert_eq!((spans[0].start, spans[0].end), (0, 402));
    assert_eq!((spans[1].start, spans[1].end), (352, 503));
    let spans = chunk_spans(&parted(&[repeat('a', 200), repeat('b', 200), repeat('c', 98)]));
    assert_eq!(spans.len(), 1);
    assert_eq!((spans[0].start, spans[0].end), (0, 502));
}

#[test]
fn oversized_sentence_is_kept_whole() {
    let spans = chunk_spans(&parted(&[repeat('x', 600)]));
    assert_eq!(spans.len(), 1);
    assert_eq!(text_of(&spans[0]), repeat('x', 600));
    assert_eq!((spans[0].start, spans[0].end), (0, 600));
}

#[test]
fn short_span_is_handed_on_whole_as_overlap() {
    let spans = chunk_spans(&parted(&["short".to_string(), repeat('x', 600)]));
    assert_eq!(spans.len(), 2);
    assert_eq!(text_of(&spans[0]), "short");
    assert_eq!((spans[0].start, spans[0].end), (0, 5));
    assert_eq!(text_of(&spans[1]), format!("short. {}", repeat('x', 600)));
    assert_eq!((spans[1].start, spans[1].end), (0, 607));
}

#[test]
fn characters_are_counted_not_bytes() {
    // 300 two-byte characters twice: 600 characters, 1200 bytes.
    let spans = chunk_spans(&parted(&[repeat('é', 300), repeat('ü', 300)]));
    assert_eq!(spans.len(), 2);
    assert_eq!((spans[0].start, spans[0].end), (0, 300));
    assert_eq!(text_of(&spans[1]), format!("{}. {}", repeat('é', 50), repeat('ü', 300)));
    assert_eq!((spans[1].start, spans[1].end), (250, 602));
}

#[test]
fn spans_chain_and_cover_the_text() {
    let texts: Vec<String> =
        (0..40).map(|i| format!("sentence number {} {}", i, repeat('z', i * 3))).collect();
    let sentences = parted(&texts);
    let whole: String =
        sentences.iter().map(|s| format!("{}{}", s.lead, s.text)).collect::<Vec<String>>().concat();
    let all: Vec<char> = whole.chars().collect();
    let spans = chunk_spans(&sentences);
    assert!(spans.len() > 1);
    assert_eq!(spans[0].start, 0);
    assert_eq!(spans[spans.len() - 1].end, all.len());
    let longest = sentences
        .iter()
        .map(|s| s.lead.chars().count() + s.text.chars().count())
        .max()
        .unwrap();
    for (i, span) in spans.iter().enumerate() {
        assert_eq!(span.end - span.start, span.text.len());
        assert_eq!(&all[span.start..span.end], &span.text[..]);
        assert!(span.text.len() >= 1 && span.text.len() <= CHUNK_SIZE + longest);
        if i > 0 {
            let before = &spans[i - 1];
            let overlap = before.text.len().min(CHUNK_OVERLAP);
            assert_eq!(span.start, before.end - overlap);
            assert!(before.end <= span.end);
        }
    }
}

#[test]
fn text_length_counts_leads_and_sentences() {
    assert_eq!(checked_text_length(&led(&[("", "ab"), (". ", "c")])), Some(5));
    assert_eq!(checked_text_length(&Vec::new()), Some(0));
    assert_eq!(checked_text_length(&led(&[("", "é"), ("", "")])), Some(1));
}

#[test]
fn pieces_are_led_by_the_ends_before_them() {
    assert_eq!(
        join_ends(&owned(&["One", "Two", "Three"]), &owned(&[". ", "! "]), "One. Two! Three"),
        Some(led(&[("", "One"), (". ", "Two"), ("! ", "Three")]))
    );
    assert_eq!(join_ends(&owned(&[""]), &Vec::new(), ""), Some(led(&[("", "")])));
}

#[test]
fn pieces_and_ends_must_make_up_the_text() {
    assert_eq!(join_ends(&owned(&["One", "Two"]), &owned(&[". "]), "One, Two"), None);
    assert_eq!(join_ends(&owned(&["One", "Two"]), &owned(&[". "]), "One. Two."), None);
    assert_eq!(join_ends(&owned(&["One", "Two"]), &owned(&[". ", "! "]), "One. Two! "), None);
    assert_eq!(join_ends(&owned(&["One"]), &owned(&[". "]), "One. "), None);
    assert_eq!(join_ends(&Vec::new(), &Vec::new(), ""), None);
}

#[test]
fn collapsed_text_is_trimmed_if_it_is_single_spaced() {
    assert_eq!(tidy(" a b  "), Some("a b".to_string()));
    assert_eq!(tidy("a b"), Some("a b".to_string()));
    assert_eq!(tidy(""), Some(String::new()));
    assert_eq!(tidy("   "), Some(String::new()));
    assert_eq!(tidy("a  b"), None);
    assert_eq!(tidy("a \tb"), None);
    assert!(single_spaced(&"a b c".chars().collect()));
    assert!(single_spaced(&" ".chars().collect()));
    assert!(single_spaced(&Vec::new()));
    assert!(!single_spaced(&"a b \nc".chars().collect()));
    assert!(!single_spaced(&"  ".chars().collect()));
}

#[test]
fn chunk_takes_identifier_and_trimmed_text_of_its_span() {
    let span = ChunkSpan { start: 7, end: 12, text: " ab. ".chars().collect() };
    let chunk = chunk_of_span(&span, "some-id".to_string());
    assert_eq!(chunk.id, "some-id");
    assert_eq!(chunk.content, "ab.");
    assert_eq!((chunk.start_position, chunk.end_position), (7, 12));
    assert_eq!(chunk.embedding, None);
}

#[test]
fn clean_text_replaces_disallowed_characters_and_collapses_white_space() {
    let processor = DocumentProcessor::new();
    assert_eq!(
        processor.clean_text("Hello,\t\tworld!  #1 @home\n\nNext"),
        Some("Hello, world! 1 home Next".to_string())
    );
}

#[test]
fn clean_text_keeps_the_allowed_punctuation() {
    let processor = DocumentProcessor::new();
    assert_eq!(
        processor.clean_text("a.b,c!d?e;f:g(h)i-j[k]l{m}n_o"),
        Some("a.b,c!d?e;f:g(h)i-j[k]l{m}n_o".to_string())
    );
    assert_eq!(processor.clean_text("50% of \"it\" <b>*"), Some("50 of it b".to_string()));
}

#[test]
fn clean_text_trims_and_keeps_letters_of_any_script() {
    let processor = DocumentProcessor::new();
    assert_eq!(processor.clean_text("  naïve café  "), Some("naïve café".to_string()));
    assert_eq!(processor.clean_text(""), Some(String::new()));
    assert_eq!(processor.clean_text(" \n\t "), Some(String::new()));
}

#[test]
fn sentences_end_at_terminators_followed_by_white_space() {
    let processor = DocumentProcessor::new();
    assert_eq!(
        processor.split_into_sentences("One. Two! Three? Four"),
        Some(led(&[("", "One"), (". ", "Two"), ("! ", "Three"), ("? ", "Four")]))
    );
    assert_eq!(
        processor.split_into_sentences("Wait... what?! Yes."),
        Some(led(&[("", "Wait"), ("... ", "what"), ("?! ", "Yes.")]))
    );
    assert_eq!(
        processor.split_into_sentences(". . x"),
        Some(led(&[("", ""), (". ", ""), (". ", "x")]))
    );
    assert_eq!(processor.split_into_sentences("v1.2 is out"), Some(led(&[("", "v1.2 is out")])));
    assert_eq!(processor.split_into_sentences(""), Some(led(&[("", "")])));
}

#[test]
fn empty_document_yields_no_chunks() {
    let processor = DocumentProcessor::new();
    assert_eq!(processor.create_chunks(""), Some(Vec::new()));
    assert_eq!(processor.create_chunks("   \n "), Some(Vec::new()));
}

#[test]
fn short_document_yields_one_chunk() {
    let processor = DocumentProcessor::new();
    let chunks = processor.create_chunks("The cat sat on the mat. The mat was red.").unwrap();
    assert_eq!(chunks.len(), 1);
    assert_eq!(chunks[0].content, "The cat sat on the mat. The mat was red.");
    assert_eq!(chunks[0].start_position, 0);
    assert_eq!(chunks[0].end_position, 40);
    assert_eq!(chunks[0].embedding, None);
}

#[test]
fn single_long_sentence_yields_one_chunk() {
    let processor = DocumentProcessor::new();
    let text = repeat('w', 700);
    let chunks = processor.create_chunks(&text).unwrap();
    assert_eq!(chunks.len(), 1);
    assert_eq!(chunks[0].content, text);
    assert_eq!((chunks[0].start_position, chunks[0].end_position), (0, 700));
}

#[test]
fn long_document_yields_overlapping_chunks() {
    let processor = DocumentProcessor::new();
    let sentence = format!("{}.", repeat('q', 99));
    let text = vec![sentence; 12].join(" ");
    let chunks = processor.create_chunks(&text).unwrap();
    // Sentences of 99 characters (the last keeps its full stop), parted by
    // ends of two: four fit in the first chunk, four more beside the overlap
    // in the second.
    assert_eq!(text.chars().count(), 1211);
    assert_eq!(chunks.len(), 3);
    assert_eq!((chunks[0].start_position, chunks[0].end_position), (0, 402));
    assert_eq!((chunks[1].start_position, chunks[1].end_position), (352, 806));
    assert_eq!((chunks[2].start_position, chunks[2].end_position), (756, 1211));
    let all: Vec<char> = text.chars().collect();
    for chunk in &chunks {
        let span: String = all[chunk.start_position..chunk.end_position].iter().collect();
        assert_eq!(chunk.content, span.trim());
    }
    // The first chunk ends before the end of its last sentence; the next
    // one starts with the overlap and that end.
    assert_eq!(chunks[0].content.chars().count(), 402);
    assert!(chunks[0].content.ends_with('q'));
    assert!(chunks[1].content.starts_with(&format!("{}. q", repeat('q', 50))));
    for pair in chunks.windows(2) {
        assert_eq!(pair[1].start_position, pair[0].end_position - CHUNK_OVERLAP);
    }
    for chunk in &chunks {
        assert!(chunk.content.chars().count() <= chunk.end_position - chunk.start_position);
        assert_eq!(chunk.content, chunk.content.trim());
    }
}

#[test]
fn positions_are_those_of_the_cleaned_text() {
    let processor = DocumentProcessor::new();
    // The cleaned text is "a . b, c": the sign and the run of white space
    // have become one space each.
    let chunks = processor.create_chunks("  a .\t\tb,#c ").unwrap();
    assert_eq!(processor.clean_text("  a .\t\tb,#c "), Some("a . b, c".to_string()));
    assert_eq!(chunks.len(), 1);
    assert_eq!(chunks[0].content, "a . b, c");
    assert_eq!((chunks[0].start_position, chunks[0].end_position), (0, 8));
}

#[test]
fn last_chunk_ends_where_the_cleaned_text_ends() {
    let processor = DocumentProcessor::new();
    let sentence = format!("{}!", repeat('k', 60));
    let text = vec![sentence; 30].join("  \n");
    let cleaned = processor.clean_text(&text).unwrap();
    let all: Vec<char> = cleaned.chars().collect();
    let chunks = processor.create_chunks(&text).unwrap();
    assert!(chunks.len() > 1);
    assert_eq!(chunks[0].start_position, 0);
    assert_eq!(chunks[chunks.len() - 1].end_position, all.len());
    for (i, chunk) in chunks.iter().enumerate() {
        let span: String = all[chunk.start_position..chunk.end_position].iter().collect();
        assert_eq!(chunk.content, span.trim());
        assert!(chunk.content.chars().count() >= 1);
        if i > 0 {
            assert!(chunk.start_position < chunks[i - 1].end_position);
            assert!(chunk.start_position + CHUNK_OVERLAP >= chunks[i - 1].end_position);
        }
    }
}

#[test]
fn next_chunk_starts_with_fifty_characters_of_the_sentence_before() {
    let processor = DocumentProcessor::new();
    let text = format!("{}. {}", repeat('a', 300), repeat('b', 300));
    let chunks = processor.create_chunks(&text).unwrap();
    assert_eq!(chunks.len(), 2);
    assert_eq!((chunks[0].start_position, chunks[0].end_position), (0, 300));
    assert_eq!(chunks[0].content, repeat('a', 300));
    assert_eq!(chunks[1].start_position + 50, chunks[0].end_position);
    assert_eq!(chunks[1].end_position, 602);
    assert_eq!(chunks[1].content, format!("{}. {}", repeat('a', 50), repeat('b', 300)));
    let whole = processor.create_chunks(&format!("{}. {}", repeat('a', 250), repeat('b', 250)));
    let whole = whole.unwrap();
    assert_eq!(whole.len(), 1);
    assert_eq!((whole[0].start_position, whole[0].end_position), (0, 502));
}

#[test]
fn chunks_get_fresh_identifiers() {
    let processor = DocumentProcessor::new();
    let sentence = format!("{}.", repeat('q', 99));
    let text = vec![sentence; 12].join(" ");
    let chunks = processor.create_chunks(&text).unwrap();
    for (i, chunk) in chunks.iter().enumerate() {
        assert_eq!(chunk.id.len(), 36);
        for other in &chunks[i + 1..] {
            assert_ne!(chunk.id, other.id);
        }
    }
}

#[test]
fn built_document_keeps_name_and_text() {
    let processor = DocumentProcessor::new();
    let document = processor
        .build_document("a.pdf".to_string(), "First one. Second one.".to_string())
        .unwrap();
    assert_eq!(document.filename, "a.pdf");
    assert_eq!(document.content, "First one. Second one.");
    assert_eq!(document.id.len(), 36);
    assert_eq!(document.chunks.len(), 1);
    assert_eq!(document.chunks[0].content, "First one. Second one.");
    assert_eq!(document.chunks[0].end_position, 22);
}
