use crate::text::chars_of;
use vstd::prelude::*;

verus! {

/// A chunk is closed before a sentence would take it beyond this many
/// characters.
pub const CHUNK_SIZE: usize = 500;

/// A new chunk starts with at most this many trailing characters of the one
/// before it.
pub const CHUNK_OVERLAP: usize = 50;

/// A sentence of a text, with what stands in the text between it and the
/// sentence before it: the end of that sentence, a run of terminators and
/// white space. The first sentence has nothing before it.
#[derive(Debug, PartialEq, Eq)]
pub struct Sentence {
    pub lead: String,
    pub text: String,
}

/// The mathematical content of a `Sentence`.
pub struct SentenceView {
    pub lead: Seq<char>,
    pub text: Seq<char>,
}

impl View for Sentence {
    type V = SentenceView;

    open spec fn view(&self) -> SentenceView {
        SentenceView { lead: self.lead@, text: self.text@ }
    }
}

/// The views of a sequence of sentences.
pub open spec fn sentence_views(sentences: Seq<Sentence>) -> Seq<SentenceView> {
    Seq::new(sentences.len(), |i: int| sentences[i]@)
}

/// A chunk as the chunker lays it out: its text before trimming, and the
/// half-open range of character positions that it declares.
#[derive(Debug, PartialEq, Eq)]
pub struct ChunkSpan {
    pub start: usize,
    pub end: usize,
    pub text: Vec<char>,
}

/// The mathematical content of a `ChunkSpan`; its range ends at
/// `start + text.len()`.
pub struct SpanView {
    pub start: nat,
    pub text: Seq<char>,
}

impl SpanView {
    /// The position after the last character of the span.
    pub open spec fn end(self) -> nat {
        self.start + self.text.len()
    }
}

impl View for ChunkSpan {
    type V = SpanView;

    open spec fn view(&self) -> SpanView {
        SpanView { start: self.start as nat, text: self.text@ }
    }
}

/// The views of a sequence of spans.
pub open spec fn span_views(spans: Seq<ChunkSpan>) -> Seq<SpanView> {
    Seq::new(spans.len(), |i: int| spans[i]@)
}

/// The chunker between two sentences: the chunks that are closed, the text
/// of the chunk that is open, and the position at which the open chunk
/// starts.
pub struct ChunkerState {
    pub closed: Seq<SpanView>,
    pub buffer: Seq<char>,
    pub start: nat,
}

/// The characters that a closed chunk hands on to the next one: its last
/// `CHUNK_OVERLAP` characters, or all of it if it is shorter.
pub open spec fn overlap_tail(buffer: Seq<char>) -> Seq<char> {
    if buffer.len() > CHUNK_OVERLAP {
        buffer.skip(buffer.len() - CHUNK_OVERLAP)
    } else {
        buffer
    }
}

/// What one more sentence does to the chunker. If the open chunk is not
/// empty and the text of the sentence would take it beyond `CHUNK_SIZE`,
/// the chunk is closed before the lead of the sentence, and a new one is
/// opened with the overlap of the closed one, the lead and the sentence.
/// Otherwise the lead and the sentence join the open chunk. The lead counts
/// neither in the test nor in the overlap.
pub open spec fn chunker_step(state: ChunkerState, sentence: SentenceView) -> ChunkerState {
    if state.buffer.len() + sentence.text.len() > CHUNK_SIZE && state.buffer.len() > 0 {
        let overlap = overlap_tail(state.buffer);
        ChunkerState {
            closed: state.closed.push(SpanView { start: state.start, text: state.buffer }),
            buffer: overlap + sentence.lead + sentence.text,
            start: (state.start + state.buffer.len() - overlap.len()) as nat,
        }
    } else {
        ChunkerState {
            closed: state.closed,
            buffer: state.buffer + sentence.lead + sentence.text,
            start: state.start,
        }
    }
}

/// The chunker after the given sentences.
pub open spec fn chunker_run(sentences: Seq<SentenceView>) -> ChunkerState
    decreases sentences.len(),
{
    if sentences.len() == 0 {
        ChunkerState { closed: Seq::empty(), buffer: Seq::empty(), start: 0 }
    } else {
        chunker_step(chunker_run(sentences.drop_last()), sentences.last())
    }
}

/// The chunks of a text that is given as its sentences in a row: those that
/// the chunker closed, and the open one if it is not empty.
pub open spec fn spans_of(sentences: Seq<SentenceView>) -> Seq<SpanView> {
    let state = chunker_run(sentences);
    if state.buffer.len() > 0 {
        state.closed.push(SpanView { start: state.start, text: state.buffer })
    } else {
        state.closed
    }
}

/// The text that the sentences form: one after the other, each after its
/// lead.
pub open spec fn text_of(sentences: Seq<SentenceView>) -> Seq<char>
    decreases sentences.len(),
{
    if sentences.len() == 0 {
        Seq::empty()
    } else {
        text_of(sentences.drop_last()) + sentences.last().lead + sentences.last().text
    }
}

/// The text of the first sentences is no longer than that of all.
pub proof fn lemma_text_of_prefix(sentences: Seq<SentenceView>, n: int)
    requires
        0 <= n <= sentences.len(),
    ensures
        text_of(sentences.take(n)).len() <= text_of(sentences).len(),
    decreases sentences.len(),
{
    if n == sentences.len() {
        assert(sentences.take(n) == sentences);
    } else {
        lemma_text_of_prefix(sentences.drop_last(), n);
        assert(sentences.drop_last().take(n) == sentences.take(n));
    }
}

/// The length of the text of a list of sentences, if it fits in `usize`.
pub fn checked_text_length(sentences: &Vec<Sentence>) -> (total: Option<usize>)
    ensures
        match total {
            Some(n) => n == text_of(sentence_views(sentences@)).len(),
            None => text_of(sentence_views(sentences@)).len() > usize::MAX,
        },
{
    let mut total: usize = 0;
    let mut i: usize = 0;
    let ghost all = sentence_views(sentences@);
    assert(all.take(0) == Seq::<SentenceView>::empty());
    while i < sentences.len()
        invariant
            i <= sentences.len(),
            all == sentence_views(sentences@),
            total == text_of(all.take(i as int)).len(),
        decreases sentences.len() - i,
    {
        let lead = sentences[i].lead.as_str().unicode_len();
        let text = sentences[i].text.as_str().unicode_len();
        proof {
            assert(all.take(i as int + 1).drop_last() == all.take(i as int));
            assert(all.take(i as int + 1).last() == sentences@[i as int]@);
            lemma_text_of_prefix(all, i as int + 1);
        }
        if lead > usize::MAX - text || total > usize::MAX - (lead + text) {
            return None;
        }
        total = total + (lead + text);
        i += 1;
    }
    assert(all.take(i as int) == all);
    Some(total)
}

/// The last `CHUNK_OVERLAP` characters of a text, or all of it if it is
/// shorter.
fn copy_overlap(buffer: &Vec<char>) -> (tail: Vec<char>)
    ensures
        tail@ == overlap_tail(buffer@),
{
    let from = if buffer.len() > CHUNK_OVERLAP {
        buffer.len() - CHUNK_OVERLAP
    } else {
        0
    };
    let mut tail: Vec<char> = Vec::new();
    let mut i: usize = from;
    while i < buffer.len()
        invariant
            from <= i <= buffer.len(),
            tail@ == buffer@.subrange(from as int, i as int),
        decreases buffer.len() - i,
    {
        tail.push(buffer[i]);
        i += 1;
    }
    assert(buffer@.subrange(0, buffer@.len() as int) == buffer@);
    tail
}

/// The spans lie in `text` and hold what `text` holds at their declared
/// positions, and each starts where the overlap of the one before it
/// starts and ends no earlier than that one.
pub open spec fn spans_chain(spans: Seq<SpanView>, text: Seq<char>) -> bool {
    &&& forall|i: int|
        0 <= i < spans.len() ==> {
            &&& (#[trigger] spans[i]).text.len() >= 1
            &&& spans[i].end() <= text.len()
            &&& spans[i].text == text.subrange(spans[i].start as int, spans[i].end() as int)
        }
    &&& forall|i: int|
        0 <= i < spans.len() - 1 ==> (#[trigger] spans[i + 1]).start + overlap_tail(
            spans[i].text,
        ).len() == spans[i].end() && spans[i].end() <= spans[i + 1].end()
    &&& spans.len() > 0 ==> spans[0].start == 0
}

/// The spans cover `text` without a gap: they chain, the first starts at
/// position 0 and the last ends where the text ends. There is no span
/// exactly if the text is empty.
pub open spec fn is_covering(spans: Seq<SpanView>, text: Seq<char>) -> bool {
    &&& spans_chain(spans, text)
    &&& (spans.len() == 0 <==> text.len() == 0)
    &&& spans.len() > 0 ==> spans.last().end() == text.len()
}

/// What holds between the chunker and the text after any number of
/// sentences.
spec fn covers(state: ChunkerState, text: Seq<char>) -> bool {
    &&& text.len() == state.start + state.buffer.len()
    &&& state.buffer == text.skip(state.start as int)
    &&& spans_chain(state.closed, text)
    &&& state.buffer.len() == 0 ==> state.closed.len() == 0
    &&& if state.closed.len() == 0 {
        state.start == 0
    } else {
        state.start + overlap_tail(state.closed.last().text).len() == state.closed.last().end()
    }
}

/// After any number of sentences the chunker covers their text.
proof fn lemma_run_covers(sentences: Seq<SentenceView>)
    ensures
        covers(chunker_run(sentences), text_of(sentences)),
    decreases sentences.len(),
{
    if sentences.len() == 0 {
        assert(text_of(sentences).skip(0) == Seq::<char>::empty());
    } else {
        lemma_run_covers(sentences.drop_last());
        let before = chunker_run(sentences.drop_last());
        let after = chunker_run(sentences);
        let text = text_of(sentences.drop_last());
        let grown = text_of(sentences);
        let sentence = sentences.last();
        assert(grown == text + sentence.lead + sentence.text);
        assert forall|i: int| 0 <= i < before.closed.len() implies {
            &&& (#[trigger] before.closed[i]).end() <= grown.len()
            &&& before.closed[i].text == grown.subrange(
                before.closed[i].start as int,
                before.closed[i].end() as int,
            )
        } by {
            let span = before.closed[i];
            assert(text.subrange(span.start as int, span.end() as int) == grown.subrange(
                span.start as int,
                span.end() as int,
            ));
        }
        if before.buffer.len() + sentence.text.len() > CHUNK_SIZE && before.buffer.len() > 0 {
            let closing = SpanView { start: before.start, text: before.buffer };
            let overlap = overlap_tail(before.buffer);
            assert(closing.end() == text.len());
            assert(closing.text == grown.subrange(closing.start as int, closing.end() as int));
            assert(overlap == text.skip(text.len() - overlap.len()));
            assert(after.buffer == grown.skip(after.start as int));
            assert(after.closed.last() == closing);
            assert forall|i: int| 0 <= i < after.closed.len() implies {
                &&& (#[trigger] after.closed[i]).text.len() >= 1
                &&& after.closed[i].end() <= grown.len()
                &&& after.closed[i].text == grown.subrange(
                    after.closed[i].start as int,
                    after.closed[i].end() as int,
                )
            } by {
                if i < before.closed.len() {
                    assert(after.closed[i] == before.closed[i]);
                }
            }
            assert forall|i: int| 0 <= i < after.closed.len() - 1 implies (
            #[trigger] after.closed[i + 1]).start + overlap_tail(after.closed[i].text).len()
                == after.closed[i].end() && after.closed[i].end() <= after.closed[i + 1].end() by {
                assert(after.closed[i] == before.closed[i]);
                if i + 1 < before.closed.len() {
                    assert(after.closed[i + 1] == before.closed[i + 1]);
                }
            }
            if before.closed.len() > 0 {
                assert(after.closed[0] == before.closed[0]);
            }
        } else {
            assert(after.buffer == grown.skip(after.start as int));
        }
    }
}

/// The chunks of a text that is given as its sentences cover the text
/// without a gap. Each chunk holds the text at its declared positions, the
/// first starts at position 0, each next one starts where the overlap of
/// its predecessor starts, and the last ends where the text ends.
pub proof fn lemma_chunks_cover_text(sentences: Seq<SentenceView>)
    ensures
        is_covering(spans_of(sentences), text_of(sentences)),
{
    lemma_run_covers(sentences);
    let state = chunker_run(sentences);
    let text = text_of(sentences);
    let spans = spans_of(sentences);
    if state.buffer.len() > 0 {
        let closing = SpanView { start: state.start, text: state.buffer };
        assert(closing.text == text.subrange(closing.start as int, closing.end() as int));
        assert(spans.last() == closing);
        assert forall|i: int| 0 <= i < spans.len() implies {
            &&& (#[trigger] spans[i]).text.len() >= 1
            &&& spans[i].end() <= text.len()
            &&& spans[i].text == text.subrange(spans[i].start as int, spans[i].end() as int)
        } by {
            if i < state.closed.len() {
                assert(spans[i] == state.closed[i]);
            }
        }
        assert forall|i: int| 0 <= i < spans.len() - 1 implies (#[trigger] spans[i + 1]).start
            + overlap_tail(spans[i].text).len() == spans[i].end() && spans[i].end() <= spans[i
            + 1].end() by {
            assert(spans[i] == state.closed[i]);
            if i + 1 < state.closed.len() {
                assert(spans[i + 1] == state.closed[i + 1]);
            }
        }
        if state.closed.len() > 0 {
            assert(spans[0] == state.closed[0]);
        }
    }
}

/// Lays a text that is given as its sentences out in overlapping chunks.
pub fn chunk_spans(sentences: &Vec<Sentence>) -> (spans: Vec<ChunkSpan>)
    requires
        text_of(sentence_views(sentences@)).len() <= usize::MAX,
    ensures
        span_views(spans@) == spans_of(sentence_views(sentences@)),
        forall|i: int|
            0 <= i < spans@.len() ==> (#[trigger] spans@[i]).end == spans@[i].start
                + spans@[i].text@.len(),
{
    let mut spans: Vec<ChunkSpan> = Vec::new();
    let mut buffer: Vec<char> = Vec::new();
    let mut start: usize = 0;
    let mut i: usize = 0;
    let ghost all = sentence_views(sentences@);
    assert(all.take(0) == Seq::<SentenceView>::empty());
    assert(span_views(spans@) == Seq::<SpanView>::empty());
    while i < sentences.len()
        invariant
            i <= sentences.len(),
            all == sentence_views(sentences@),
            text_of(all).len() <= usize::MAX,
            span_views(spans@) == chunker_run(all.take(i as int)).closed,
            buffer@ == chunker_run(all.take(i as int)).buffer,
            start == chunker_run(all.take(i as int)).start,
            forall|k: int|
                0 <= k < spans@.len() ==> (#[trigger] spans@[k]).end == spans@[k].start
                    + spans@[k].text@.len(),
        decreases sentences.len() - i,
    {
        let lead = chars_of(sentences[i].lead.as_str());
        let text = chars_of(sentences[i].text.as_str());
        proof {
            assert(all.take(i as int + 1).drop_last() == all.take(i as int));
            assert(all.take(i as int + 1).last() == sentences@[i as int]@);
            lemma_run_covers(all.take(i as int));
            lemma_text_of_prefix(all, i as int + 1);
        }
        if buffer.len() + text.len() > CHUNK_SIZE && buffer.len() > 0 {
            let mut next = copy_overlap(&buffer);
            let end = start + buffer.len();
            let next_start = end - next.len();
            let ghost before = spans@;
            let ghost closing = SpanView { start: start as nat, text: buffer@ };
            next.extend_from_slice(lead.as_slice());
            next.extend_from_slice(text.as_slice());
            spans.push(ChunkSpan { start, end, text: buffer });
            assert(span_views(spans@) == span_views(before).push(closing));
            buffer = next;
            start = next_start;
        } else {
            buffer.extend_from_slice(lead.as_slice());
            buffer.extend_from_slice(text.as_slice());
        }
        i += 1;
    }
    assert(all.take(i as int) == all);
    if buffer.len() > 0 {
        proof {
            lemma_run_covers(all);
        }
        let ghost before = spans@;
        let ghost closing = SpanView { start: start as nat, text: buffer@ };
        let end = start + buffer.len();
        spans.push(ChunkSpan { start, end, text: buffer });
        assert(span_views(spans@) == span_views(before).push(closing));
    }
    spans
}

/// The length of a sentence with its lead.
pub open spec fn full_length(sentence: SentenceView) -> nat {
    sentence.lead.len() + sentence.text.len()
}

/// The length of the longest of the sentences, each with its lead.
pub open spec fn longest(sentences: Seq<SentenceView>) -> nat
    decreases sentences.len(),
{
    if sentences.len() == 0 {
        0
    } else if full_length(sentences.last()) > longest(sentences.drop_last()) {
        full_length(sentences.last())
    } else {
        longest(sentences.drop_last())
    }
}

/// After any number of sentences the open chunk and the closed ones keep
/// within the size bound.
proof fn lemma_run_sizes(sentences: Seq<SentenceView>)
    ensures
        chunker_run(sentences).buffer.len() <= CHUNK_SIZE + longest(sentences),
        forall|i: int|
            0 <= i < chunker_run(sentences).closed.len() ==> 1 <= (#[trigger] chunker_run(
                sentences,
            ).closed[i]).text.len() <= CHUNK_SIZE + longest(sentences),
    decreases sentences.len(),
{
    if sentences.len() > 0 {
        lemma_run_sizes(sentences.drop_last());
        let before = chunker_run(sentences.drop_last());
        let after = chunker_run(sentences);
        assert forall|i: int| 0 <= i < after.closed.len() implies 1 <= (#[trigger] after.closed[i]).text.len()
            <= CHUNK_SIZE + longest(sentences) by {
            if i < before.closed.len() {
                assert(after.closed[i] == before.closed[i]);
            }
        }
    }
}

/// Every chunk holds at least one character and at most `CHUNK_SIZE`
/// characters more than the longest sentence with its lead.
pub proof fn lemma_chunk_size_bound(sentences: Seq<SentenceView>)
    ensures
        forall|i: int|
            0 <= i < spans_of(sentences).len() ==> 1 <= (#[trigger] spans_of(
                sentences,
            )[i]).text.len() <= CHUNK_SIZE + longest(sentences),
{
    lemma_run_sizes(sentences);
    let state = chunker_run(sentences);
    let spans = spans_of(sentences);
    assert forall|i: int| 0 <= i < spans.len() implies 1 <= (#[trigger] spans[i]).text.len()
        <= CHUNK_SIZE + longest(sentences) by {
        if i < state.closed.len() {
            assert(spans[i] == state.closed[i]);
        }
    }
}

} // verus!
