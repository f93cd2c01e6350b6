use crate::chunker::{
    chunk_spans,
    lemma_chunk_size_bound,
    lemma_chunks_cover_text,
    longest,
    overlap_tail,
    spans_chain,
    sentence_views,
    spans_of,
    text_of,
    ChunkSpan,
    Sentence,
    SentenceView,
    SpanView,
    CHUNK_OVERLAP,
    CHUNK_SIZE,
};
use crate::models::{chunk_views, ChunkView, Document, DocumentChunk};
use crate::patterns::{
    find_all,
    regex_matches,
    regex_replace_all,
    regex_split,
    replace_all,
    split,
};
use crate::text::{
    chars_of,
    lemma_trimmed_ends,
    lemma_trimmed_keeps_character,
    lemma_trimmed_len,
    string_of,
    trim,
    trimmed,
    views,
    white_space,
};
use uuid::Uuid;
use vstd::prelude::*;
use vstd::string::StringExecFns;

verus! {

/// Matches one character that is neither a word character, nor white space,
/// nor one of the punctuation marks that the cleaned text keeps.
pub const DISALLOWED: &'static str = "[^\\w\\s.,!?;:()\\-\\[\\]{}]";

/// Matches a run of white space.
pub const WHITESPACE_RUN: &'static str = "\\s+";

/// Matches the end of a sentence: a run of terminators and the white space
/// after it.
pub const SENTENCE_END: &'static str = "[.!?]+\\s+";

/// What replaces a disallowed character and a run of white space.
pub const SPACE: &'static str = " ";

/// The ending of the name of a file that holds a document.
pub const PDF_SUFFIX: &'static str = ".pdf";

/// Whether a file of this name holds a document: the name ends in
/// `PDF_SUFFIX` and has at least one more character before it.
pub open spec fn is_pdf_name(file_name: Seq<char>) -> bool {
    file_name.len() > PDF_SUFFIX@.len() && PDF_SUFFIX@.is_suffix_of(file_name)
}

/// Whether a file of this name holds a document.
pub fn is_pdf_file_name(file_name: &str) -> (is_pdf: bool)
    ensures
        is_pdf == is_pdf_name(file_name@),
{
    let name = chars_of(file_name);
    let suffix = chars_of(PDF_SUFFIX);
    if name.len() <= suffix.len() {
        return false;
    }
    let offset = name.len() - suffix.len();
    let mut i: usize = 0;
    while i < suffix.len()
        invariant
            i <= suffix.len() < name.len(),
            offset == name.len() - suffix.len(),
            name@ == file_name@,
            suffix@ == PDF_SUFFIX@,
            forall|k: int| 0 <= k < i ==> name@[offset + k] == suffix@[k],
        decreases suffix.len() - i,
    {
        if name[offset + i] != suffix[i] {
            assert(name@.subrange(offset as int, name@.len() as int)[i as int] != suffix@[i as int]);
            return false;
        }
        i += 1;
    }
    assert(name@.subrange(offset as int, name@.len() as int) == suffix@);
    true
}

/// No two characters in a row are white space.
pub open spec fn is_single_spaced(text: Seq<char>) -> bool {
    forall|i: int|
        0 <= i < text.len() - 1 ==> !(white_space(#[trigger] text[i]) && white_space(text[i + 1]))
}

/// What is left of a text whose runs of white space were made single
/// spaces: the text without the white space at its ends. There is none if
/// the text still holds two characters of white space in a row.
pub open spec fn tidied(collapsed: Seq<char>) -> Option<Seq<char>> {
    if is_single_spaced(trimmed(collapsed)) {
        Some(trimmed(collapsed))
    } else {
        None
    }
}

/// The cleaned form of a text: every disallowed character becomes a space,
/// every run of white space becomes one space, and the ends are trimmed.
/// There is none if the engine rejects one of the two patterns, or if what
/// it hands back is not single-spaced.
pub open spec fn cleaned(text: Seq<char>) -> Option<Seq<char>> {
    match regex_replace_all(DISALLOWED@, text, SPACE@) {
        Some(spaced) => match regex_replace_all(WHITESPACE_RUN@, spaced, SPACE@) {
            Some(collapsed) => tidied(collapsed),
            None => None,
        },
        None => None,
    }
}

/// The sentences that the pieces between the sentence ends form with the
/// sentence ends: each piece is the text of a sentence, led by the sentence
/// end before it; the first piece has no lead.
pub open spec fn with_ends(pieces: Seq<Seq<char>>, ends: Seq<Seq<char>>) -> Seq<SentenceView> {
    Seq::new(
        pieces.len(),
        |j: int|
            SentenceView {
                lead: if j == 0 {
                    Seq::empty()
                } else {
                    ends[j - 1]
                },
                text: pieces[j],
            },
    )
}

/// The sentences that pieces and sentence ends form of a text. There are
/// none if there is not one sentence end between each two pieces, or if
/// pieces and ends in turn do not make up the text.
pub open spec fn sentences_from(
    pieces: Seq<Seq<char>>,
    ends: Seq<Seq<char>>,
    text: Seq<char>,
) -> Option<Seq<SentenceView>> {
    if pieces.len() == ends.len() + 1 && text_of(with_ends(pieces, ends)) == text {
        Some(with_ends(pieces, ends))
    } else {
        None
    }
}

/// The sentences of a cleaned text: its pieces between the sentence ends,
/// each led by the sentence end before it. The sentences in a row, each
/// after its lead, are the text. There are none if the engine rejects the
/// pattern, or if the pieces and sentence ends that it hands out do not
/// make up the text.
pub open spec fn sentences_of(text: Seq<char>) -> Option<Seq<SentenceView>> {
    match regex_split(SENTENCE_END@, text) {
        Some(pieces) => match regex_matches(SENTENCE_END@, text) {
            Some(ends) => sentences_from(pieces, ends, text),
            None => None,
        },
        None => None,
    }
}

/// The layout of the chunks of a document: the spans of its cleaned text,
/// cut where sentences end. There is none if the cleaned text or its
/// sentences cannot be had.
pub open spec fn chunk_layout(content: Seq<char>) -> Option<Seq<SpanView>> {
    match cleaned(content) {
        Some(text) => match sentences_of(text) {
            Some(sentences) => Some(spans_of(sentences)),
            None => None,
        },
        None => None,
    }
}

/// An identifier is written in this many characters.
pub const ID_LENGTH: usize = 36;

/// The chunk is the span with its text trimmed, and has an identifier and
/// no embedding yet.
pub open spec fn is_chunk_of_span(chunk: ChunkView, span: SpanView) -> bool {
    &&& chunk.id.len() == ID_LENGTH
    &&& chunk.content == trimmed(span.text)
    &&& chunk.start_position == span.start
    &&& chunk.end_position == span.end()
    &&& chunk.embedding is None
}

/// The chunks are the spans, in order.
pub open spec fn are_chunks_of_spans(chunks: Seq<ChunkView>, spans: Seq<SpanView>) -> bool {
    &&& chunks.len() == spans.len()
    &&& forall|i: int| 0 <= i < chunks.len() ==> is_chunk_of_span(#[trigger] chunks[i], spans[i])
}

/// The chunks of a document cover its cleaned text, and their positions
/// are positions in the cleaned text. There is no chunk exactly if the
/// cleaned text is empty. The first chunk starts at position 0 and the last
/// ends where the cleaned text ends. Every chunk declares at least one
/// position and at most `CHUNK_SIZE` more than the longest sentence has
/// characters with its lead, and its content is the cleaned text at these
/// positions, trimmed. Each next chunk starts within the one before it, at most
/// `CHUNK_OVERLAP` positions before its end, so that no position is left
/// out.
pub proof fn lemma_chunks_cover_document(content: Seq<char>, chunks: Seq<ChunkView>)
    requires
        chunk_layout(content) is Some,
        are_chunks_of_spans(chunks, chunk_layout(content)->0),
    ensures
        ({
            let text = cleaned(content)->0;
            let sentences = sentences_of(text)->0;
            &&& text_of(sentences) == text
            &&& chunks.len() == 0 <==> text.len() == 0
            &&& chunks.len() > 0 ==> chunks[0].start_position == 0 && chunks.last().end_position
                == text.len()
            &&& forall|i: int|
                0 <= i < chunks.len() ==> {
                    &&& 1 <= (#[trigger] chunks[i]).end_position - chunks[i].start_position
                        <= CHUNK_SIZE + longest(sentences)
                    &&& chunks[i].end_position <= text.len()
                    &&& chunks[i].content == trimmed(
                        text.subrange(
                            chunks[i].start_position as int,
                            chunks[i].end_position as int,
                        ),
                    )
                    &&& chunks[i].content.len() <= chunks[i].end_position
                        - chunks[i].start_position
                }
            &&& forall|i: int|
                0 <= i < chunks.len() - 1 ==> chunks[i].end_position - CHUNK_OVERLAP <= (
                #[trigger] chunks[i + 1]).start_position < chunks[i].end_position
        }),
{
    let text = cleaned(content)->0;
    let sentences = sentences_of(text)->0;
    let spans = spans_of(sentences);
    lemma_chunks_cover_text(sentences);
    lemma_chunk_size_bound(sentences);
    assert forall|i: int| 0 <= i < chunks.len() implies {
        &&& 1 <= (#[trigger] chunks[i]).end_position - chunks[i].start_position <= CHUNK_SIZE
            + longest(sentences)
        &&& chunks[i].end_position <= text.len()
        &&& chunks[i].content == trimmed(
            text.subrange(chunks[i].start_position as int, chunks[i].end_position as int),
        )
        &&& chunks[i].content.len() <= chunks[i].end_position - chunks[i].start_position
    } by {
        assert(is_chunk_of_span(chunks[i], spans[i]));
        lemma_trimmed_len(spans[i].text);
    }
    assert forall|i: int| 0 <= i < chunks.len() - 1 implies chunks[i].end_position
        - CHUNK_OVERLAP <= (#[trigger] chunks[i + 1]).start_position < chunks[i].end_position by {
        assert(is_chunk_of_span(chunks[i], spans[i]));
        assert(is_chunk_of_span(chunks[i + 1], spans[i + 1]));
        assert(spans[i + 1].start + overlap_tail(spans[i].text).len() == spans[i].end());
        assert(spans[i].text.len() >= 1);
    }
    if chunks.len() > 0 {
        assert(is_chunk_of_span(chunks[0], spans[0]));
        assert(is_chunk_of_span(chunks[chunks.len() - 1], spans[spans.len() - 1]));
    }
}

/// Every span holds a character of the text that is no white space, if
/// the text starts with such a character and is single-spaced.
proof fn lemma_spans_hold_characters(spans: Seq<SpanView>, text: Seq<char>, n: int)
    requires
        spans_chain(spans, text),
        is_single_spaced(text),
        text.len() > 0 ==> !white_space(text[0]),
        0 <= n < spans.len(),
    ensures
        exists|p: int| spans[n].start <= p < spans[n].end() && !white_space(#[trigger] text[p]),
    decreases n,
{
    let span = spans[n];
    if n == 0 {
        assert(!white_space(text[0]));
    } else if span.text.len() >= 2 {
        let p = span.start as int;
        if white_space(text[p]) {
            assert(!white_space(text[p + 1]));
        }
    } else {
        lemma_spans_hold_characters(spans, text, n - 1);
        let before = spans[n - 1];
        assert(spans[n - 1 + 1] == span);
        assert(span.start + overlap_tail(before.text).len() == before.end());
        assert(before.end() <= span.end());
        assert(before.text.len() >= 1);
        let p = choose|p: int| before.start <= p < before.end() && !white_space(#[trigger] text[p]);
        assert(span.start <= p < span.end());
    }
}

/// Every chunk of a document keeps at least one character as its content:
/// the cleaned text starts with a character that is no white space and is
/// single-spaced, so every chunk holds such a character.
pub proof fn lemma_chunks_keep_characters(content: Seq<char>, chunks: Seq<ChunkView>)
    requires
        chunk_layout(content) is Some,
        are_chunks_of_spans(chunks, chunk_layout(content)->0),
    ensures
        forall|i: int| 0 <= i < chunks.len() ==> (#[trigger] chunks[i]).content.len() >= 1,
{
    let text = cleaned(content)->0;
    let sentences = sentences_of(text)->0;
    let spans = spans_of(sentences);
    lemma_chunks_cover_text(sentences);
    if text.len() > 0 {
        let collapsed = regex_replace_all(
            WHITESPACE_RUN@,
            regex_replace_all(DISALLOWED@, content, SPACE@)->0,
            SPACE@,
        )->0;
        assert(text == trimmed(collapsed));
        lemma_trimmed_ends(collapsed);
    }
    assert forall|i: int| 0 <= i < chunks.len() implies (#[trigger] chunks[i]).content.len()
        >= 1 by {
        assert(is_chunk_of_span(chunks[i], spans[i]));
        lemma_spans_hold_characters(spans, text, i);
        let p = choose|p: int|
            spans[i].start <= p < spans[i].end() && !white_space(#[trigger] text[p]);
        assert(spans[i].text[p - spans[i].start] == text[p]);
        lemma_trimmed_keeps_character(spans[i].text, p - spans[i].start);
    }
}

/// Calls `uuid::Uuid::new_v4` and writes the identifier in its hyphenated
/// form. Trusted: the identifier is random, and all that is claimed of it
/// is the number of characters of the hyphenated form. The call fails only
/// where the operating system has no random bytes to give.
#[verifier::external_body]
pub(crate) fn fresh_id() -> (id: String)
    ensures
        id@.len() == ID_LENGTH,
{
    Uuid::new_v4().to_string()
}

/// Whether no two characters in a row are white space.
pub fn single_spaced(chars: &Vec<char>) -> (single: bool)
    ensures
        single == is_single_spaced(chars@),
{
    let mut i: usize = 1;
    while i < chars.len()
        invariant
            1 <= i,
            forall|k: int|
                0 <= k < i - 1 && k < chars@.len() - 1 ==> !(white_space(#[trigger] chars@[k])
                    && white_space(chars@[k + 1])),
        decreases chars.len() - i,
    {
        if chars[i - 1].is_whitespace() && chars[i].is_whitespace() {
            assert(white_space(chars@[i as int - 1]) && white_space(chars@[i as int - 1 + 1]));
            return false;
        }
        i += 1;
    }
    true
}

/// Trims a text whose runs of white space were made single spaces, and
/// hands it out if it is single-spaced: see `tidied`.
pub fn tidy(collapsed: &str) -> (result: Option<String>)
    ensures
        match result {
            Some(clean) => tidied(collapsed@) == Some(clean@),
            None => tidied(collapsed@) is None,
        },
{
    let chars = trim(&chars_of(collapsed));
    if single_spaced(&chars) {
        Some(string_of(&chars))
    } else {
        None
    }
}

/// Forms the sentences of a text from its pieces between the sentence ends
/// and from the sentence ends: see `sentences_from`. The sentences are
/// held against the text, and handed out only if they make it up.
pub fn join_ends(pieces: &Vec<String>, ends: &Vec<String>, text: &str) -> (result: Option<
    Vec<Sentence>,
>)
    ensures
        match result {
            Some(sentences) => sentences_from(views(pieces@), views(ends@), text@) == Some(
                sentence_views(sentences@),
            ),
            None => sentences_from(views(pieces@), views(ends@), text@) is None,
        },
{
    let piece_count = pieces.len();
    let end_count = ends.len();
    assert(views(pieces@).len() == piece_count);
    assert(views(ends@).len() == end_count);
    if end_count == usize::MAX || piece_count != end_count + 1 {
        return None;
    }
    let ghost expected = with_ends(views(pieces@), views(ends@));
    let mut sentences: Vec<Sentence> = Vec::new();
    let mut whole = String::new();
    let mut j: usize = 0;
    assert(sentence_views(sentences@) == expected.take(0));
    while j < pieces.len()
        invariant
            j <= pieces.len(),
            pieces.len() == ends.len() + 1,
            expected == with_ends(views(pieces@), views(ends@)),
            sentence_views(sentences@) == expected.take(j as int),
            whole@ == text_of(sentence_views(sentences@)),
        decreases pieces.len() - j,
    {
        let lead = if j == 0 {
            String::new()
        } else {
            ends[j - 1].clone()
        };
        whole.append(lead.as_str());
        whole.append(pieces[j].as_str());
        let ghost before = sentences@;
        sentences.push(Sentence { lead, text: pieces[j].clone() });
        proof {
            assert(sentences@[j as int]@ == expected[j as int]);
            assert(sentence_views(sentences@) == sentence_views(before).push(expected[j as int]));
            assert(sentence_views(sentences@).drop_last() == sentence_views(before));
            assert(expected.take(j as int + 1) == expected.take(j as int).push(
                expected[j as int],
            ));
        }
        j += 1;
    }
    assert(expected.take(j as int) == expected);
    if whole == String::from_str(text) {
        Some(sentences)
    } else {
        None
    }
}

/// The chunk that a span and an identifier make: the span with its text
/// trimmed, without an embedding.
pub fn chunk_of_span(span: &ChunkSpan, id: String) -> (chunk: DocumentChunk)
    ensures
        chunk@ == (ChunkView {
            id: id@,
            content: trimmed(span.text@),
            start_position: span.start,
            end_position: span.end,
            embedding: None,
        }),
{
    DocumentChunk {
        id,
        content: string_of(&trim(&span.text)),
        start_position: span.start,
        end_position: span.end,
        embedding: None,
    }
}

/// Turns documents' text into chunks.
pub struct DocumentProcessor {}

impl DocumentProcessor {
    /// A processor; it holds no state.
    pub fn new() -> (processor: Self) {
        DocumentProcessor {  }
    }

    /// Cleans a text: see `cleaned`.
    pub fn clean_text(&self, text: &str) -> (result: Option<String>)
        ensures
            match result {
                Some(clean) => cleaned(text@) == Some(clean@),
                None => cleaned(text@) is None,
            },
    {
        match replace_all(DISALLOWED, text, SPACE) {
            Some(spaced) => match replace_all(WHITESPACE_RUN, spaced.as_str(), SPACE) {
                Some(collapsed) => tidy(collapsed.as_str()),
                None => None,
            },
            None => None,
        }
    }

    /// Splits a cleaned text into sentences: see `sentences_of`.
    pub fn split_into_sentences(&self, text: &str) -> (result: Option<Vec<Sentence>>)
        ensures
            match result {
                Some(sentences) => sentences_of(text@) == Some(sentence_views(sentences@)),
                None => sentences_of(text@) is None,
            },
    {
        let pieces = match split(SENTENCE_END, text) {
            Some(pieces) => pieces,
            None => { return None; },
        };
        let ends = match find_all(SENTENCE_END, text) {
            Some(ends) => ends,
            None => { return None; },
        };
        join_ends(&pieces, &ends, text)
    }

    /// The chunks of a document's text, each with a fresh identifier and
    /// without an embedding.
    pub fn create_chunks(&self, content: &str) -> (result: Option<Vec<DocumentChunk>>)
        ensures
            match result {
                Some(chunks) => chunk_layout(content@) matches Some(spans) && are_chunks_of_spans(
                    chunk_views(chunks@),
                    spans,
                ),
                None => chunk_layout(content@) is None,
            },
            result matches Some(chunks) ==> forall|i: int|
                0 <= i < chunks@.len() ==> (#[trigger] chunks@[i]).content@.len() >= 1,
    {
        let text = match self.clean_text(content) {
            Some(text) => text,
            None => { return None; },
        };
        let sentences = match self.split_into_sentences(text.as_str()) {
            Some(sentences) => sentences,
            None => { return None; },
        };
        let length = text.as_str().unicode_len();
        assert(text_of(sentence_views(sentences@)).len() == length);
        let spans = chunk_spans(&sentences);
        let mut chunks: Vec<DocumentChunk> = Vec::new();
        let mut i: usize = 0;
        while i < spans.len()
            invariant
                i <= spans.len(),
                chunks@.len() == i,
                forall|k: int|
                    0 <= k < spans@.len() ==> (#[trigger] spans@[k]).end == spans@[k].start
                        + spans@[k].text@.len(),
                forall|k: int|
                    0 <= k < i ==> is_chunk_of_span(
                        #[trigger] chunk_views(chunks@)[k],
                        spans@[k]@,
                    ),
            decreases spans.len() - i,
        {
            let ghost before = chunks@;
            chunks.push(chunk_of_span(&spans[i], fresh_id()));
            assert(chunk_views(chunks@) == chunk_views(before).push(chunks@[i as int]@));
            i += 1;
        }
        proof {
            lemma_chunks_keep_characters(content@, chunk_views(chunks@));
            assert forall|k: int| 0 <= k < chunks@.len() implies (#[trigger] chunks@[k]).content@.len()
                >= 1 by {
                assert(chunk_views(chunks@)[k].content.len() >= 1);
            }
        }
        Some(chunks)
    }

    /// The document with the given name and text, with a fresh identifier
    /// and its chunks.
    pub fn build_document(&self, filename: String, content: String) -> (result: Option<Document>)
        ensures
            match result {
                Some(document) => {
                    &&& document@.id.len() == ID_LENGTH
                    &&& document@.filename == filename@
                    &&& document@.content == content@
                    &&& chunk_layout(content@) matches Some(spans) && are_chunks_of_spans(
                        document@.chunks,
                        spans,
                    )
                },
                None => chunk_layout(content@) is None,
            },
    {
        match self.create_chunks(content.as_str()) {
            Some(chunks) => Some(Document { id: fresh_id(), filename, content, chunks }),
            None => None,
        }
    }
}

} // verus!
