use crate::text::{
    byte_len,
    byte_length,
    chars_of,
    lemma_trimmed_byte_len,
    string_of,
    trim,
    trimmed,
    views,
};
use unicode_segmentation::UnicodeSegmentation;
use vstd::prelude::*;
use vstd::string::StringExecFns;

verus! {

/// A chunk of a document's text with the range of bytes that it declares.
#[derive(Debug, PartialEq, Eq)]
pub struct TextChunk {
    pub content: String,
    pub doc_id: String,
    pub page_number: Option<u32>,
    pub start_char_index: usize,
    pub end_char_index: usize,
}

/// The mathematical content of a `TextChunk`.
pub struct TextChunkView {
    pub content: Seq<char>,
    pub doc_id: Seq<char>,
    pub page_number: Option<u32>,
    pub start_char_index: int,
    pub end_char_index: int,
}

impl View for TextChunk {
    type V = TextChunkView;

    open spec fn view(&self) -> TextChunkView {
        TextChunkView {
            content: self.content@,
            doc_id: self.doc_id@,
            page_number: self.page_number,
            start_char_index: self.start_char_index as int,
            end_char_index: self.end_char_index as int,
        }
    }
}

/// The views of a sequence of text chunks.
pub open spec fn text_chunk_views(chunks: Seq<TextChunk>) -> Seq<TextChunkView> {
    Seq::new(chunks.len(), |i: int| chunks[i]@)
}

/// Why sentences could not be laid out in chunks by token counts.
#[derive(Debug, Clone, Copy, PartialEq, Eq, Structural)]
pub enum ChunkingError {
    /// There is not one token count for each sentence.
    CountMismatch,
    /// The last position of a chunk is no value of `usize`.
    PositionOverflow,
}

/// A trimmed sentence with the byte position at which it is taken to start.
#[derive(Debug, PartialEq, Eq)]
pub struct IndexedSentence {
    pub content: String,
    pub start_char_index: usize,
}

/// The mathematical content of an `IndexedSentence`.
pub struct IndexedSentenceView {
    pub content: Seq<char>,
    pub start_char_index: nat,
}

impl View for IndexedSentence {
    type V = IndexedSentenceView;

    open spec fn view(&self) -> IndexedSentenceView {
        IndexedSentenceView {
            content: self.content@,
            start_char_index: self.start_char_index as nat,
        }
    }
}

impl Clone for IndexedSentence {
    fn clone(&self) -> (copy: Self)
        ensures
            copy@ == self@,
    {
        IndexedSentence { content: self.content.clone(), start_char_index: self.start_char_index }
    }
}

/// The views of a sequence of indexed sentences.
pub open spec fn indexed_views(sentences: Seq<IndexedSentence>) -> Seq<IndexedSentenceView> {
    Seq::new(sentences.len(), |i: int| sentences[i]@)
}

/// The sentences of a text by the Unicode rules for sentence boundaries:
/// the pieces between boundaries that hold a letter or a digit.
pub uninterp spec fn unicode_sentences_of(text: Seq<char>) -> Seq<Seq<char>>;

/// The number of bytes that the encodings of the pieces occupy together.
pub open spec fn total_bytes(pieces: Seq<Seq<char>>) -> nat
    decreases pieces.len(),
{
    if pieces.len() == 0 {
        0
    } else {
        total_bytes(pieces.drop_last()) + byte_len(pieces.last())
    }
}

/// Calls `unicode_segmentation::UnicodeSegmentation::unicode_sentences` and
/// copies the pieces. Trusted: the pieces depend on the text alone, and,
/// being parts of the text that do not overlap, are together no longer than
/// the text.
#[verifier::external_body]
pub(crate) fn unicode_sentences(text: &str) -> (pieces: Vec<String>)
    ensures
        views(pieces@) == unicode_sentences_of(text@),
        total_bytes(views(pieces@)) <= byte_len(text@),
{
    text.unicode_sentences().map(|piece| piece.to_string()).collect()
}

/// The pieces trimmed, without those that trimming leaves empty.
pub open spec fn trimmed_pieces(pieces: Seq<Seq<char>>) -> Seq<Seq<char>>
    decreases pieces.len(),
{
    if pieces.len() == 0 {
        Seq::empty()
    } else if trimmed(pieces.last()).len() > 0 {
        trimmed_pieces(pieces.drop_last()).push(trimmed(pieces.last()))
    } else {
        trimmed_pieces(pieces.drop_last())
    }
}

/// The pieces trimmed, without those that trimming leaves empty, each with
/// its start: the number of bytes of the pieces before it, and of the white
/// space that trimming took from it.
pub open spec fn indexed_pieces(pieces: Seq<Seq<char>>) -> Seq<IndexedSentenceView>
    decreases pieces.len(),
{
    if pieces.len() == 0 {
        Seq::empty()
    } else if trimmed(pieces.last()).len() > 0 {
        indexed_pieces(pieces.drop_last()).push(
            IndexedSentenceView {
                content: trimmed(pieces.last()),
                start_char_index: (total_bytes(pieces.drop_last()) + byte_len(pieces.last())
                    - byte_len(trimmed(pieces.last()))) as nat,
            },
        )
    } else {
        indexed_pieces(pieces.drop_last())
    }
}

/// The bytes of the first pieces are at most those of all.
pub proof fn lemma_total_bytes_prefix(pieces: Seq<Seq<char>>, n: int)
    requires
        0 <= n <= pieces.len(),
    ensures
        total_bytes(pieces.take(n)) <= total_bytes(pieces),
    decreases pieces.len(),
{
    if n == pieces.len() {
        assert(pieces.take(n) == pieces);
    } else {
        lemma_total_bytes_prefix(pieces.drop_last(), n);
        assert(pieces.drop_last().take(n) == pieces.take(n));
    }
}

/// The pieces trimmed, without those that trimming leaves empty.
pub fn trim_pieces(pieces: &Vec<String>) -> (sentences: Vec<String>)
    ensures
        views(sentences@) == trimmed_pieces(views(pieces@)),
{
    let mut sentences: Vec<String> = Vec::new();
    let ghost all = views(pieces@);
    let mut i: usize = 0;
    assert(all.take(0) == Seq::<Seq<char>>::empty());
    assert(views(sentences@) == Seq::<Seq<char>>::empty());
    while i < pieces.len()
        invariant
            i <= pieces.len(),
            all == views(pieces@),
            views(sentences@) == trimmed_pieces(all.take(i as int)),
        decreases pieces.len() - i,
    {
        assert(all.take(i as int + 1).drop_last() == all.take(i as int));
        assert(all.take(i as int + 1).last() == pieces@[i as int]@);
        let kept = trim(&chars_of(pieces[i].as_str()));
        if kept.len() > 0 {
            let ghost before = sentences@;
            sentences.push(string_of(&kept));
            assert(views(sentences@) == views(before).push(kept@));
        }
        i += 1;
    }
    assert(all.take(i as int) == all);
    sentences
}

/// The pieces trimmed, without those that trimming leaves empty, each with
/// the byte position at which it is taken to start.
pub fn index_pieces(pieces: &Vec<String>) -> (sentences: Vec<IndexedSentence>)
    requires
        total_bytes(views(pieces@)) <= usize::MAX,
    ensures
        indexed_views(sentences@) == indexed_pieces(views(pieces@)),
{
    let mut sentences: Vec<IndexedSentence> = Vec::new();
    let ghost all = views(pieces@);
    let mut offset: usize = 0;
    let mut i: usize = 0;
    assert(all.take(0) == Seq::<Seq<char>>::empty());
    assert(indexed_views(sentences@) == Seq::<IndexedSentenceView>::empty());
    while i < pieces.len()
        invariant
            i <= pieces.len(),
            all == views(pieces@),
            total_bytes(all) <= usize::MAX,
            offset == total_bytes(all.take(i as int)),
            indexed_views(sentences@) == indexed_pieces(all.take(i as int)),
        decreases pieces.len() - i,
    {
        proof {
            assert(all.take(i as int + 1).drop_last() == all.take(i as int));
            assert(all.take(i as int + 1).last() == pieces@[i as int]@);
            lemma_total_bytes_prefix(all, i as int + 1);
            lemma_trimmed_byte_len(pieces@[i as int]@);
        }
        let length = byte_length(pieces[i].as_str());
        let kept = string_of(&trim(&chars_of(pieces[i].as_str())));
        if kept.as_str().unicode_len() > 0 {
            let ghost before = sentences@;
            let start = offset + (length - byte_length(kept.as_str()));
            sentences.push(IndexedSentence { content: kept, start_char_index: start });
            assert(indexed_views(sentences@) == indexed_views(before).push(
                sentences@[before.len() as int]@,
            ));
        }
        offset = offset + length;
        i += 1;
    }
    assert(all.take(i as int) == all);
    sentences
}

/// The sentences of a text, trimmed, without the empty ones.
pub fn segment_text_into_sentences(text: &str) -> (sentences: Vec<String>)
    ensures
        views(sentences@) == trimmed_pieces(unicode_sentences_of(text@)),
{
    let pieces = unicode_sentences(text);
    trim_pieces(&pieces)
}

/// The sentences of a text, trimmed, without the empty ones, each with the
/// byte position at which it is taken to start.
pub fn segment_text_into_indexed_sentences(text: &str) -> (sentences: Vec<IndexedSentence>)
    ensures
        indexed_views(sentences@) == indexed_pieces(unicode_sentences_of(text@)),
{
    let pieces = unicode_sentences(text);
    let limit = byte_length(text);
    assert(total_bytes(views(pieces@)) <= limit);
    index_pieces(&pieces)
}

/// The number of tokens of the sentences from `lo` up to `hi`.
pub open spec fn range_tokens(counts: Seq<usize>, lo: int, hi: int) -> nat
    decreases hi - lo,
{
    if hi <= lo {
        0
    } else {
        range_tokens(counts, lo, hi - 1) + counts[hi - 1] as nat
    }
}

/// Where the walk back from `k` stops: it takes in one earlier sentence
/// after the other, down to `lo`, as long as the sentences from there up to
/// `hi` hold no more than `overlap` tokens.
pub open spec fn back_off_from(counts: Seq<usize>, lo: int, k: int, hi: int, overlap: nat) -> int
    decreases k - lo,
{
    if k > lo && range_tokens(counts, k - 1, hi) <= overlap {
        back_off_from(counts, lo, k - 1, hi, overlap)
    } else {
        k
    }
}

/// The first sentence that a closed chunk of the sentences from `lo` up to
/// `hi` hands on to the next chunk.
pub open spec fn back_off(counts: Seq<usize>, lo: int, hi: int, overlap: nat) -> int {
    back_off_from(counts, lo, hi, hi, overlap)
}

/// The chunker by token counts between two sentences: the ranges of
/// sentences that are closed, and the first sentence of the open chunk.
pub struct TokenChunkerState {
    pub closed: Seq<(int, int)>,
    pub first: int,
}

/// The chunker before sentence `n`. A chunk that is not empty is closed
/// before the sentence that would take it beyond `max` tokens; the next
/// chunk then starts with the last sentences of the closed one that hold no
/// more than `overlap` tokens together.
pub open spec fn token_chunker_run(counts: Seq<usize>, max: nat, overlap: nat, n: int)
    -> TokenChunkerState
    decreases n,
{
    if n <= 0 {
        TokenChunkerState { closed: Seq::empty(), first: 0 }
    } else {
        let before = token_chunker_run(counts, max, overlap, n - 1);
        if range_tokens(counts, before.first, n - 1) + counts[n - 1] > max && before.first < n - 1 {
            TokenChunkerState {
                closed: before.closed.push((before.first, n - 1)),
                first: back_off(counts, before.first, n - 1, overlap),
            }
        } else {
            before
        }
    }
}

/// The ranges of sentences that form the chunks: those that the chunker
/// closed, and the open one.
pub open spec fn token_ranges(counts: Seq<usize>, max: nat, overlap: nat) -> Seq<(int, int)> {
    let state = token_chunker_run(counts, max, overlap, counts.len() as int);
    if state.first < counts.len() {
        state.closed.push((state.first, counts.len() as int))
    } else {
        state.closed
    }
}

/// The sentences from `lo` up to `hi`, with a space between each two.
pub open spec fn joined_contents(sentences: Seq<IndexedSentenceView>, lo: int, hi: int) -> Seq<
    char,
>
    decreases hi - lo,
{
    if hi <= lo {
        Seq::empty()
    } else if hi == lo + 1 {
        sentences[lo].content
    } else {
        joined_contents(sentences, lo, hi - 1) + seq![' '] + sentences[hi - 1].content
    }
}

/// The chunk of the sentences from `lo` up to `hi`: their joined text, from
/// the start of the first sentence to the last byte of the text.
pub open spec fn chunk_of_range(
    sentences: Seq<IndexedSentenceView>,
    doc_id: Seq<char>,
    lo: int,
    hi: int,
) -> TextChunkView {
    let content = joined_contents(sentences, lo, hi);
    TextChunkView {
        content,
        doc_id,
        page_number: None,
        start_char_index: sentences[lo].start_char_index as int,
        end_char_index: sentences[lo].start_char_index + byte_len(content) - 1,
    }
}

/// The chunks of the given ranges of sentences, in order.
pub open spec fn chunks_of_ranges(
    sentences: Seq<IndexedSentenceView>,
    doc_id: Seq<char>,
    ranges: Seq<(int, int)>,
) -> Seq<TextChunkView> {
    Seq::new(
        ranges.len(),
        |r: int| chunk_of_range(sentences, doc_id, ranges[r].0, ranges[r].1),
    )
}

/// The chunks of sentences with the given token counts.
pub open spec fn token_chunks(
    sentences: Seq<IndexedSentenceView>,
    doc_id: Seq<char>,
    counts: Seq<usize>,
    max: nat,
    overlap: nat,
) -> Seq<TextChunkView> {
    chunks_of_ranges(sentences, doc_id, token_ranges(counts, max, overlap))
}

/// The last position of every chunk is a value of `usize`.
pub open spec fn positions_fit(chunks: Seq<TextChunkView>) -> bool {
    forall|r: int| 0 <= r < chunks.len() ==> 0 <= (#[trigger] chunks[r]).end_char_index <= usize::MAX
}

/// The ranges of sentences as pairs of integers.
pub open spec fn range_views(ranges: Seq<(usize, usize)>) -> Seq<(int, int)> {
    Seq::new(ranges.len(), |r: int| (ranges[r].0 as int, ranges[r].1 as int))
}

/// The tokens of a range are those of its first sentence and of the rest.
proof fn lemma_range_tokens_front(counts: Seq<usize>, lo: int, hi: int)
    requires
        lo < hi,
    ensures
        range_tokens(counts, lo, hi) == counts[lo] + range_tokens(counts, lo + 1, hi),
    decreases hi - lo,
{
    if hi > lo + 1 {
        lemma_range_tokens_front(counts, lo, hi - 1);
        assert(range_tokens(counts, lo + 1, hi) == range_tokens(counts, lo + 1, hi - 1)
            + counts[hi - 1]);
    } else {
        assert(range_tokens(counts, lo, lo) == 0);
        assert(range_tokens(counts, lo + 1, hi) == 0);
    }
}

/// A range holds at most as many tokens as its sentences can hold.
proof fn lemma_range_tokens_bound(counts: Seq<usize>, lo: int, hi: int)
    requires
        0 <= lo <= hi <= counts.len(),
    ensures
        range_tokens(counts, lo, hi) <= (hi - lo) * 0xFFFF_FFFF_FFFF_FFFF,
    decreases hi - lo,
{
    if hi > lo {
        lemma_range_tokens_bound(counts, lo, hi - 1);
    }
}

/// The open chunk starts before the next sentence, and every closed range
/// holds at least one of the sentences so far.
proof fn lemma_token_chunker_first(counts: Seq<usize>, max: nat, overlap: nat, n: int)
    requires
        0 <= n <= counts.len(),
    ensures
        0 <= token_chunker_run(counts, max, overlap, n).first <= n,
        n > 0 ==> token_chunker_run(counts, max, overlap, n).first < n,
        forall|r: int|
            0 <= r < token_chunker_run(counts, max, overlap, n).closed.len() ==> 0 <= (
            #[trigger] token_chunker_run(counts, max, overlap, n).closed[r]).0
                < token_chunker_run(counts, max, overlap, n).closed[r].1 <= n,
    decreases n,
{
    if n > 0 {
        lemma_token_chunker_first(counts, max, overlap, n - 1);
        let before = token_chunker_run(counts, max, overlap, n - 1);
        let after = token_chunker_run(counts, max, overlap, n);
        lemma_back_off_range(counts, before.first, n - 1, n - 1, overlap);
        assert forall|r: int| 0 <= r < after.closed.len() implies 0 <= (#[trigger] after.closed[r]).0
            < after.closed[r].1 <= n by {
            if r < before.closed.len() {
                assert(after.closed[r] == before.closed[r]);
            }
        }
    }
}

/// The walk back stops between `lo` and where it started.
proof fn lemma_back_off_range(counts: Seq<usize>, lo: int, k: int, hi: int, overlap: nat)
    requires
        lo <= k,
    ensures
        lo <= back_off_from(counts, lo, k, hi, overlap) <= k,
    decreases k - lo,
{
    if k > lo && range_tokens(counts, k - 1, hi) <= overlap {
        lemma_back_off_range(counts, lo, k - 1, hi, overlap);
    }
}

/// The ranges of sentences that form the chunks.
pub fn sentence_ranges(counts: &Vec<usize>, max_chunk_tokens: usize, overlap_tokens: usize) -> (ranges:
    Vec<(usize, usize)>)
    ensures
        range_views(ranges@) == token_ranges(
            counts@,
            max_chunk_tokens as nat,
            overlap_tokens as nat,
        ),
        forall|r: int|
            0 <= r < ranges@.len() ==> (#[trigger] ranges@[r]).0 < ranges@[r].1 <= counts@.len(),
{
    let mut ranges: Vec<(usize, usize)> = Vec::new();
    let mut first: usize = 0;
    let mut tokens: u128 = 0;
    let mut i: usize = 0;
    let ghost max = max_chunk_tokens as nat;
    let ghost overlap = overlap_tokens as nat;
    assert(range_views(ranges@) == Seq::<(int, int)>::empty());
    while i < counts.len()
        invariant
            i <= counts.len(),
            max == max_chunk_tokens,
            overlap == overlap_tokens,
            first <= i,
            range_views(ranges@) == token_chunker_run(counts@, max, overlap, i as int).closed,
            first == token_chunker_run(counts@, max, overlap, i as int).first,
            tokens == range_tokens(counts@, first as int, i as int),
            forall|r: int|
                0 <= r < ranges@.len() ==> (#[trigger] ranges@[r]).0 < ranges@[r].1 <= i,
        decreases counts.len() - i,
    {
        proof {
            lemma_range_tokens_bound(counts@, first as int, i as int);
            lemma_token_chunker_first(counts@, max, overlap, i as int + 1);
        }
        if tokens + (counts[i] as u128) > (max_chunk_tokens as u128) && first < i {
            let ghost before = ranges@;
            ranges.push((first, i));
            assert(range_views(ranges@) == range_views(before).push((first as int, i as int)));
            let mut k: usize = i;
            let mut kept: u128 = 0;
            while k > first && kept + (counts[k - 1] as u128) <= (overlap_tokens as u128)
                invariant
                    first <= k <= i < counts.len(),
                    overlap == overlap_tokens,
                    kept == range_tokens(counts@, k as int, i as int),
                    kept <= (i - k) * 0xFFFF_FFFF_FFFF_FFFF,
                    back_off_from(counts@, first as int, k as int, i as int, overlap) == back_off(
                        counts@,
                        first as int,
                        i as int,
                        overlap,
                    ),
                decreases k - first,
            {
                proof {
                    lemma_range_tokens_front(counts@, k as int - 1, i as int);
                }
                k -= 1;
                kept = kept + (counts[k] as u128);
                proof {
                    lemma_range_tokens_bound(counts@, k as int, i as int);
                }
            }
            proof {
                if k > first {
                    lemma_range_tokens_front(counts@, k as int - 1, i as int);
                }
            }
            first = k;
            tokens = kept;
        }
        proof {
            lemma_range_tokens_bound(counts@, first as int, i as int);
        }
        tokens = tokens + (counts[i] as u128);
        i += 1;
    }
    if first < counts.len() {
        let ghost before = ranges@;
        ranges.push((first, counts.len()));
        assert(range_views(ranges@) == range_views(before).push(
            (first as int, counts@.len() as int),
        ));
    }
    ranges
}

/// The sentences from `lo` up to `hi`, with a space between each two.
pub fn join_sentences(sentences: &Vec<IndexedSentence>, lo: usize, hi: usize) -> (content: String)
    requires
        lo <= hi <= sentences@.len(),
    ensures
        content@ == joined_contents(indexed_views(sentences@), lo as int, hi as int),
{
    let mut content = String::new();
    let mut i: usize = lo;
    while i < hi
        invariant
            lo <= i <= hi <= sentences@.len(),
            content@ == joined_contents(indexed_views(sentences@), lo as int, i as int),
        decreases hi - i,
    {
        if i > lo {
            content.append(" ");
            proof {
                reveal_strlit(" ");
                assert(" "@ == seq![' ']);
            }
        }
        content.append(sentences[i].content.as_str());
        proof {
            assert(indexed_views(sentences@)[i as int].content == sentences@[i as int].content@);
            if i == lo {
                assert(content@ == sentences@[i as int].content@);
            }
        }
        i += 1;
    }
    content
}

/// Lays sentences out in chunks by their token counts: see `token_ranges`
/// and `chunk_of_range`. `token_counts` holds the number of tokens of each
/// sentence.
pub fn create_chunks_token_based(
    indexed_sentences: Vec<IndexedSentence>,
    doc_id: &str,
    token_counts: &Vec<usize>,
    max_chunk_tokens: usize,
    overlap_tokens: usize,
) -> (result: Result<Vec<TextChunk>, ChunkingError>)
    ensures
        result == Err::<Vec<TextChunk>, ChunkingError>(ChunkingError::CountMismatch)
            <==> token_counts@.len() != indexed_sentences@.len(),
        result is Ok ==> positions_fit(
            token_chunks(
                indexed_views(indexed_sentences@),
                doc_id@,
                token_counts@,
                max_chunk_tokens as nat,
                overlap_tokens as nat,
            ),
        ),
        result == Err::<Vec<TextChunk>, ChunkingError>(ChunkingError::PositionOverflow)
            ==> !positions_fit(
            token_chunks(
                indexed_views(indexed_sentences@),
                doc_id@,
                token_counts@,
                max_chunk_tokens as nat,
                overlap_tokens as nat,
            ),
        ),
        result matches Ok(chunks) ==> text_chunk_views(chunks@) == token_chunks(
            indexed_views(indexed_sentences@),
            doc_id@,
            token_counts@,
            max_chunk_tokens as nat,
            overlap_tokens as nat,
        ),
{
    if token_counts.len() != indexed_sentences.len() {
        return Err(ChunkingError::CountMismatch);
    }
    let ranges = sentence_ranges(token_counts, max_chunk_tokens, overlap_tokens);
    let ghost sentences = indexed_views(indexed_sentences@);
    let ghost expected = chunks_of_ranges(sentences, doc_id@, range_views(ranges@));
    let mut chunks: Vec<TextChunk> = Vec::new();
    let mut r: usize = 0;
    assert(text_chunk_views(chunks@) == expected.take(0));
    while r < ranges.len()
        invariant
            r <= ranges.len(),
            token_counts@.len() == indexed_sentences@.len(),
            sentences == indexed_views(indexed_sentences@),
            expected == chunks_of_ranges(sentences, doc_id@, range_views(ranges@)),
            expected == token_chunks(
                sentences,
                doc_id@,
                token_counts@,
                max_chunk_tokens as nat,
                overlap_tokens as nat,
            ),
            forall|k: int|
                0 <= k < ranges@.len() ==> (#[trigger] ranges@[k]).0 < ranges@[k].1
                    <= token_counts@.len(),
            text_chunk_views(chunks@) == expected.take(r as int),
            forall|k: int| 0 <= k < r ==> 0 <= (#[trigger] expected[k]).end_char_index <= usize::MAX,
        decreases ranges.len() - r,
    {
        let (lo, hi) = ranges[r];
        let content = join_sentences(&indexed_sentences, lo, hi);
        let length = byte_length(content.as_str());
        let start = indexed_sentences[lo].start_char_index;
        proof {
            assert(range_views(ranges@)[r as int] == (lo as int, hi as int));
            assert(expected[r as int] == chunk_of_range(sentences, doc_id@, lo as int, hi as int));
            assert(sentences[lo as int].start_char_index == start);
        }
        if (length == 0 && start == 0) || (length > 0 && start > usize::MAX - (length - 1)) {
            assert(!(0 <= expected[r as int].end_char_index <= usize::MAX));
            return Err(ChunkingError::PositionOverflow);
        }
        let end = if length == 0 {
            start - 1
        } else {
            start + (length - 1)
        };
        let ghost before = chunks@;
        chunks.push(
            TextChunk {
                content,
                doc_id: doc_id.to_string(),
                page_number: None,
                start_char_index: start,
                end_char_index: end,
            },
        );
        assert(text_chunk_views(chunks@) == text_chunk_views(before).push(expected[r as int]));
        assert(expected.take(r as int + 1) == expected.take(r as int).push(expected[r as int]));
        r += 1;
    }
    assert(expected.take(r as int) == expected);
    Ok(chunks)
}

/// The largest number of tokens that a prompt may hold.
pub const PROMPT_TOKENS: usize = 4096;

/// The number of tokens of a prompt that are kept free for what surrounds
/// the question and the context.
pub const RESERVED_TOKENS: usize = 50;

/// A chunk by token counts holds at most this many tokens, unless one
/// sentence alone has more.
pub const MAX_CHUNK_TOKENS: usize = 700;

/// A chunk by token counts hands at most this many tokens on to the next.
pub const OVERLAP_TOKENS: usize = 100;

/// What follows the last slash of a text, or the text if it holds none.
pub open spec fn after_last_slash(url: Seq<char>) -> Seq<char>
    decreases url.len(),
{
    if url.len() == 0 {
        Seq::empty()
    } else if url.last() == '/' {
        Seq::empty()
    } else {
        after_last_slash(url.drop_last()).push(url.last())
    }
}

/// The texts with a blank line between each two.
pub open spec fn joined_by_blank_lines(texts: Seq<Seq<char>>) -> Seq<char>
    decreases texts.len(),
{
    if texts.len() == 0 {
        Seq::empty()
    } else if texts.len() == 1 {
        texts[0]
    } else {
        joined_by_blank_lines(texts.drop_last()) + seq!['\n', '\n'] + texts.last()
    }
}

/// The contents of text chunks, in order.
pub open spec fn chunk_contents(chunks: Seq<TextChunk>) -> Seq<Seq<char>> {
    Seq::new(chunks.len(), |i: int| chunks[i].content@)
}

/// The number of tokens that the context of a prompt may hold beside a
/// question of the given number of tokens, if the question leaves room.
pub open spec fn token_budget(query_tokens: nat) -> Option<nat> {
    if query_tokens + RESERVED_TOKENS <= PROMPT_TOKENS {
        Some((PROMPT_TOKENS - RESERVED_TOKENS - query_tokens) as nat)
    } else {
        None
    }
}

/// The name of the document at an address: what follows the last slash.
pub fn document_identifier(pdf_url: &str) -> (name: String)
    ensures
        name@ == after_last_slash(pdf_url@),
{
    let chars = chars_of(pdf_url);
    let mut name: Vec<char> = Vec::new();
    let mut i: usize = 0;
    assert(chars@.take(0) == Seq::<char>::empty());
    while i < chars.len()
        invariant
            i <= chars.len(),
            name@ == after_last_slash(chars@.take(i as int)),
        decreases chars.len() - i,
    {
        assert(chars@.take(i as int + 1).drop_last() == chars@.take(i as int));
        if chars[i] == '/' {
            name = Vec::new();
        } else {
            name.push(chars[i]);
        }
        i += 1;
    }
    assert(chars@.take(i as int) == chars@);
    string_of(&name)
}

/// The contents of the chunks with a blank line between each two.
pub fn join_chunk_contents(chunks: &Vec<TextChunk>) -> (text: String)
    ensures
        text@ == joined_by_blank_lines(chunk_contents(chunks@)),
{
    let mut text = String::new();
    let ghost contents = chunk_contents(chunks@);
    let mut i: usize = 0;
    assert(contents.take(0) == Seq::<Seq<char>>::empty());
    while i < chunks.len()
        invariant
            i <= chunks.len(),
            contents == chunk_contents(chunks@),
            text@ == joined_by_blank_lines(contents.take(i as int)),
        decreases chunks.len() - i,
    {
        assert(contents.take(i as int + 1).drop_last() == contents.take(i as int));
        assert(contents.take(i as int + 1).last() == chunks@[i as int].content@);
        if i > 0 {
            text.append("\n\n");
            proof {
                reveal_strlit("\n\n");
                assert("\n\n"@ == seq!['\n', '\n']);
            }
        }
        text.append(chunks[i].content.as_str());
        proof {
            if i == 0 {
                assert(contents.take(1)[0] == chunks@[0].content@);
                assert(text@ == chunks@[0].content@);
            }
        }
        i += 1;
    }
    assert(contents.take(i as int) == contents);
    text
}

/// The number of tokens that the context of a prompt may hold beside a
/// question of the given number of tokens.
pub fn context_token_budget(query_tokens: usize) -> (budget: Option<usize>)
    ensures
        match budget {
            Some(n) => token_budget(query_tokens as nat) == Some(n as nat),
            None => token_budget(query_tokens as nat) is None,
        },
{
    if query_tokens <= PROMPT_TOKENS - RESERVED_TOKENS {
        Some(PROMPT_TOKENS - RESERVED_TOKENS - query_tokens)
    } else {
        None
    }
}

} // verus!
