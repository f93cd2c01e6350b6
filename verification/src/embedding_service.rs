use crate::models::{
    chunk_views,
    document_views,
    ChunkView,
    Document,
    DocumentChunk,
    DocumentView,
    TermVector,
    TermVectorView,
};
use crate::ranking::{
    descending_order,
    is_descending_order,
    lemma_order_is_complete,
    lemma_order_is_unique,
    lemma_order_no_duplicates,
    ranks_before,
};
use crate::term_stats::{
    build_term_table,
    corpus_view,
    count_words,
    counts_tokens,
    entry_counts,
    entry_terms,
    find_term,
    is_term_table,
    lemma_absent_term,
    lemma_corpus_terms_no_duplicates,
    lemma_present_term,
    occurrences,
    TermEntry,
    WordCount,
};
use crate::text::views;
use crate::tokenizer::{tokenize, tokens_of};
use vstd::prelude::*;

verus! {

/// The vocabulary holds at most this many terms.
pub const VOCABULARY_LIMIT: usize = 1000;

/// An embedding has at least this many components.
pub const MIN_DIMENSIONS: usize = 100;

/// The vocabulary that a ranking of the terms selects: the first
/// `VOCABULARY_LIMIT` terms of the ranking, so that a term's position in the
/// vocabulary is its rank.
pub open spec fn vocabulary_of(terms: Seq<Seq<char>>, ranking: Seq<usize>) -> Seq<Seq<char>> {
    Seq::new(
        if ranking.len() < VOCABULARY_LIMIT {
            ranking.len()
        } else {
            VOCABULARY_LIMIT as nat
        },
        |r: int| terms[ranking[r] as int],
    )
}

/// The number of components of an embedding over a vocabulary of the given
/// size.
pub open spec fn dimension(vocabulary_len: nat) -> nat {
    if vocabulary_len > MIN_DIMENSIONS {
        vocabulary_len
    } else {
        MIN_DIMENSIONS as nat
    }
}

/// `v` is the term vector of a text with the given tokens over the given
/// vocabulary: component `i` counts the occurrences of vocabulary term `i`,
/// and the components beyond the vocabulary are zero.
pub open spec fn is_term_vector(
    v: TermVectorView,
    tokens: Seq<Seq<char>>,
    vocabulary: Seq<Seq<char>>,
) -> bool {
    &&& v.counts.len() == dimension(vocabulary.len())
    &&& forall|i: int|
        0 <= i < v.counts.len() ==> #[trigger] v.counts[i] == if i < vocabulary.len() {
            occurrences(tokens, vocabulary[i])
        } else {
            0
        }
    &&& v.total_tokens == tokens.len()
}

/// A text has one term vector over a vocabulary, so embedding the same text
/// twice over the same vocabulary gives the same vector.
pub proof fn lemma_term_vector_is_unique(
    first: TermVectorView,
    second: TermVectorView,
    tokens: Seq<Seq<char>>,
    vocabulary: Seq<Seq<char>>,
)
    requires
        is_term_vector(first, tokens, vocabulary),
        is_term_vector(second, tokens, vocabulary),
    ensures
        first == second,
{
    assert(first.counts =~= second.counts);
}

/// A term vector is the zero vector exactly if no token of the text is a
/// term of the vocabulary.
pub proof fn lemma_zero_vector(
    v: TermVectorView,
    tokens: Seq<Seq<char>>,
    vocabulary: Seq<Seq<char>>,
)
    requires
        is_term_vector(v, tokens, vocabulary),
    ensures
        (forall|i: int| 0 <= i < v.counts.len() ==> #[trigger] v.counts[i] == 0) <==> (forall|
            k: int,
        |
            0 <= k < tokens.len() ==> !vocabulary.contains(#[trigger] tokens[k])),
{
    if forall|i: int| 0 <= i < v.counts.len() ==> #[trigger] v.counts[i] == 0 {
        assert forall|k: int| 0 <= k < tokens.len() implies !vocabulary.contains(
            #[trigger] tokens[k],
        ) by {
            if vocabulary.contains(tokens[k]) {
                let i = choose|i: int| 0 <= i < vocabulary.len() && vocabulary[i] == tokens[k];
                assert(tokens.contains(vocabulary[i]));
                lemma_present_term(tokens, vocabulary[i]);
                assert(v.counts[i] == 0);
            }
        }
    }
    if forall|k: int| 0 <= k < tokens.len() ==> !vocabulary.contains(#[trigger] tokens[k]) {
        assert forall|i: int| 0 <= i < v.counts.len() implies #[trigger] v.counts[i] == 0 by {
            if i < vocabulary.len() {
                if tokens.contains(vocabulary[i]) {
                    let k = choose|k: int| 0 <= k < tokens.len() && tokens[k] == vocabulary[i];
                    assert(vocabulary.contains(tokens[k]));
                }
                lemma_absent_term(tokens, vocabulary[i]);
            }
        }
    }
}

/// The vocabulary holds no term twice: it maps each of its terms to one
/// index, and the indices are those from 0 up to its length.
pub proof fn lemma_vocabulary_no_duplicates(table: Seq<TermEntry>, ranking: Seq<usize>)
    requires
        entry_terms(table).no_duplicates(),
        is_descending_order(entry_counts(table), ranking),
    ensures
        vocabulary_of(entry_terms(table), ranking).no_duplicates(),
{
    lemma_order_no_duplicates(entry_counts(table), ranking);
    let vocabulary = vocabulary_of(entry_terms(table), ranking);
    assert forall|a: int, b: int|
        0 <= a < vocabulary.len() && 0 <= b < vocabulary.len() && a != b implies vocabulary[a]
        != vocabulary[b] by {
        assert(ranking[a] != ranking[b]);
        assert(ranking[a] < table.len() && ranking[b] < table.len());
    }
}

/// The vocabulary lists its terms by descending total count, and a term
/// that it leaves out has no greater count than any term that it holds.
pub proof fn lemma_vocabulary_holds_most_frequent(table: Seq<TermEntry>, ranking: Seq<usize>)
    requires
        is_descending_order(entry_counts(table), ranking),
    ensures
        forall|a: int, b: int|
            0 <= a < b < vocabulary_of(entry_terms(table), ranking).len() ==> (
            #[trigger] table[ranking[a] as int]).count >= (#[trigger] table[ranking[b] as int]).count,
        forall|i: int, r: int|
            0 <= i < table.len() && 0 <= r < vocabulary_of(entry_terms(table), ranking).len()
                && !vocabulary_of(entry_terms(table), ranking).contains(
                (#[trigger] table[i]).term@,
            ) ==> (#[trigger] table[ranking[r] as int]).count >= table[i].count,
{
    let keys = entry_counts(table);
    let vocabulary = vocabulary_of(entry_terms(table), ranking);
    assert forall|a: int, b: int| 0 <= a < b < vocabulary.len() implies (
    #[trigger] table[ranking[a] as int]).count >= (#[trigger] table[ranking[b] as int]).count by {
        assert(ranks_before(keys, ranking[a] as int, ranking[b] as int));
    }
    assert forall|i: int, r: int|
        0 <= i < table.len() && 0 <= r < vocabulary.len() && !vocabulary.contains(
            (#[trigger] table[i]).term@,
        ) implies (#[trigger] table[ranking[r] as int]).count >= table[i].count by {
        lemma_order_is_complete(keys, ranking, i);
        let a = choose|a: int| 0 <= a < ranking.len() && ranking[a] == i;
        if a < vocabulary.len() {
            assert(vocabulary[a] == table[i].term@);
        } else {
            assert(ranks_before(keys, ranking[r] as int, ranking[a] as int));
        }
    }
}

/// The chunks of all documents, in the order of the documents.
pub open spec fn all_chunks(documents: Seq<DocumentView>) -> Seq<ChunkView>
    decreases documents.len(),
{
    if documents.len() == 0 {
        Seq::empty()
    } else {
        all_chunks(documents.drop_last()) + documents.last().chunks
    }
}

/// The tokens of each of a sequence of chunks.
pub open spec fn chunk_tokens(chunks: Seq<ChunkView>) -> Seq<Seq<Seq<char>>> {
    Seq::new(chunks.len(), |k: int| tokens_of(chunks[k].content))
}

/// The corpus that a list of documents forms: the tokens of each chunk.
pub open spec fn corpus_of(documents: Seq<DocumentView>) -> Seq<Seq<Seq<char>>> {
    chunk_tokens(all_chunks(documents))
}

/// `after` is `before` with its embedding over `vocabulary` attached.
pub open spec fn is_embedded_chunk(
    before: ChunkView,
    after: ChunkView,
    vocabulary: Seq<Seq<char>>,
) -> bool {
    &&& after.id == before.id
    &&& after.content == before.content
    &&& after.start_position == before.start_position
    &&& after.end_position == before.end_position
    &&& after.embedding matches Some(v) && is_term_vector(
        v,
        tokens_of(before.content),
        vocabulary,
    )
}

/// `after` is `before` with an embedding over `vocabulary` attached to each
/// of its chunks.
pub open spec fn is_embedded_document(
    before: DocumentView,
    after: DocumentView,
    vocabulary: Seq<Seq<char>>,
) -> bool {
    &&& after.id == before.id
    &&& after.filename == before.filename
    &&& after.content == before.content
    &&& after.chunks.len() == before.chunks.len()
    &&& forall|k: int|
        0 <= k < before.chunks.len() ==> is_embedded_chunk(
            before.chunks[k],
            #[trigger] after.chunks[k],
            vocabulary,
        )
}

/// The term model of a corpus: the statistics of every term, the ranking of
/// the terms by descending total count, and the vocabulary that the ranking
/// selects.
pub struct EmbeddingService {
    terms: Vec<TermEntry>,
    ranking: Vec<usize>,
    vocabulary: Vec<String>,
    total_chunks: usize,
}

/// How often a term occurs in a list of tokens.
pub fn count_occurrences(tokens: &Vec<String>, term: &String) -> (n: usize)
    ensures
        n == occurrences(views(tokens@), term@),
{
    let mut n: usize = 0;
    let mut i: usize = 0;
    assert(views(tokens@).take(0) == Seq::<Seq<char>>::empty());
    while i < tokens.len()
        invariant
            i <= tokens.len(),
            n == occurrences(views(tokens@).take(i as int), term@),
            n <= i,
        decreases tokens.len() - i,
    {
        assert(views(tokens@).take(i as int + 1).drop_last() == views(tokens@).take(i as int));
        if tokens[i] == *term {
            n += 1;
        }
        i += 1;
    }
    assert(views(tokens@).take(i as int) == views(tokens@));
    n
}

/// The term vector of a list of tokens over a vocabulary.
pub fn term_vector(tokens: &Vec<String>, vocabulary: &Vec<String>) -> (v: TermVector)
    ensures
        is_term_vector(v@, views(tokens@), views(vocabulary@)),
{
    let size = if vocabulary.len() > MIN_DIMENSIONS {
        vocabulary.len()
    } else {
        MIN_DIMENSIONS
    };
    let mut counts: Vec<usize> = Vec::new();
    let mut i: usize = 0;
    while i < size
        invariant
            i <= size,
            size == dimension(vocabulary@.len()),
            counts@.len() == i,
            forall|k: int|
                0 <= k < i ==> #[trigger] counts@[k] == if k < vocabulary@.len() {
                    occurrences(views(tokens@), views(vocabulary@)[k])
                } else {
                    0
                },
        decreases size - i,
    {
        let n = if i < vocabulary.len() {
            count_occurrences(tokens, &vocabulary[i])
        } else {
            0
        };
        counts.push(n);
        i += 1;
    }
    TermVector { counts, total_tokens: tokens.len() }
}

/// A corpus has one term model: two services that hold the model of the
/// same corpus agree on the terms, on their counts and document
/// frequencies, on the ranking and on the vocabulary.
pub proof fn lemma_model_is_unique(
    first: EmbeddingService,
    second: EmbeddingService,
    corpus: Seq<Seq<Seq<char>>>,
)
    requires
        first.models(corpus),
        second.models(corpus),
    ensures
        entry_terms(first.term_table()) == entry_terms(second.term_table()),
        entry_counts(first.term_table()) == entry_counts(second.term_table()),
        forall|i: int|
            0 <= i < first.term_table().len() ==> (#[trigger] first.term_table()[i]).doc_frequency
                == second.term_table()[i].doc_frequency,
        first.term_ranking() == second.term_ranking(),
        first.vocabulary_terms() == second.vocabulary_terms(),
        first.chunk_total() == second.chunk_total(),
{
    let a = first.term_table();
    let b = second.term_table();
    assert(a.len() == entry_terms(a).len());
    assert(b.len() == entry_terms(b).len());
    assert forall|i: int| 0 <= i < a.len() implies a[i].term@ == b[i].term@ by {
        assert(entry_terms(a)[i] == entry_terms(b)[i]);
    }
    assert(entry_counts(a) =~= entry_counts(b));
    lemma_order_is_unique(entry_counts(a), first.term_ranking(), second.term_ranking());
}

/// The tokens of every chunk of the documents, in corpus order.
fn collect_chunk_tokens(documents: &Vec<Document>) -> (tokens: Vec<Vec<String>>)
    ensures
        corpus_view(tokens@) == corpus_of(document_views(documents@)),
{
    let mut tokens: Vec<Vec<String>> = Vec::new();
    let mut d: usize = 0;
    let ghost docs = document_views(documents@);
    assert(docs.take(0) == Seq::<DocumentView>::empty());
    assert(corpus_view(tokens@) == corpus_of(docs.take(0)));
    while d < documents.len()
        invariant
            d <= documents.len(),
            docs == document_views(documents@),
            corpus_view(tokens@) == corpus_of(docs.take(d as int)),
        decreases documents.len() - d,
    {
        let chunks = &documents[d].chunks;
        let ghost done = all_chunks(docs.take(d as int));
        let mut c: usize = 0;
        assert(docs.take(d as int + 1).drop_last() == docs.take(d as int));
        assert(docs.take(d as int + 1).last().chunks == chunk_views(chunks@));
        assert(done + chunk_views(chunks@).take(0) == done);
        while c < chunks.len()
            invariant
                c <= chunks.len(),
                corpus_view(tokens@) == chunk_tokens(done + chunk_views(chunks@).take(c as int)),
            decreases chunks.len() - c,
        {
            let ghost before = tokens@;
            let chunk_terms = tokenize(chunks[c].content.as_str());
            tokens.push(chunk_terms);
            proof {
                let grown = done + chunk_views(chunks@).take(c as int + 1);
                let shorter = done + chunk_views(chunks@).take(c as int);
                assert(grown == shorter.push(chunks@[c as int]@));
                assert(corpus_view(tokens@) == corpus_view(before).push(
                    tokens_of(chunks@[c as int].content@),
                ));
                assert(chunk_tokens(grown) == chunk_tokens(shorter).push(
                    tokens_of(chunks@[c as int].content@),
                ));
            }
            c += 1;
        }
        assert(chunk_views(chunks@).take(c as int) == chunk_views(chunks@));
        d += 1;
    }
    assert(docs.take(d as int) == docs);
    tokens
}

/// The total counts of a term table, in order.
fn table_counts(table: &Vec<TermEntry>) -> (counts: Vec<u128>)
    ensures
        counts@ == entry_counts(table@),
{
    let mut counts: Vec<u128> = Vec::new();
    let mut i: usize = 0;
    while i < table.len()
        invariant
            i <= table.len(),
            counts@ == entry_counts(table@).take(i as int),
        decreases table.len() - i,
    {
        counts.push(table[i].count);
        i += 1;
    }
    assert(entry_counts(table@).take(i as int) == entry_counts(table@));
    counts
}

/// The vocabulary that a ranking of a term table selects.
fn select_vocabulary(table: &Vec<TermEntry>, ranking: &Vec<usize>) -> (vocabulary: Vec<String>)
    requires
        is_descending_order(entry_counts(table@), ranking@),
    ensures
        views(vocabulary@) == vocabulary_of(entry_terms(table@), ranking@),
{
    let size = if ranking.len() < VOCABULARY_LIMIT {
        ranking.len()
    } else {
        VOCABULARY_LIMIT
    };
    let mut vocabulary: Vec<String> = Vec::new();
    let mut r: usize = 0;
    while r < size
        invariant
            r <= size <= ranking.len(),
            is_descending_order(entry_counts(table@), ranking@),
            views(vocabulary@) == vocabulary_of(entry_terms(table@), ranking@).take(r as int),
            vocabulary_of(entry_terms(table@), ranking@).len() == size,
        decreases size - r,
    {
        let ghost before = vocabulary@;
        assert(ranking@[r as int] < table@.len());
        vocabulary.push(table[ranking[r]].term.clone());
        assert(views(vocabulary@) == views(before).push(table@[ranking@[r as int] as int].term@));
        r += 1;
    }
    assert(vocabulary_of(entry_terms(table@), ranking@).take(r as int) == vocabulary_of(
        entry_terms(table@),
        ranking@,
    ));
    vocabulary
}

/// The chunks with their term vectors over `vocabulary` attached.
fn embed_chunks(chunks: &Vec<DocumentChunk>, vocabulary: &Vec<String>) -> (embedded: Vec<
    DocumentChunk,
>)
    ensures
        embedded@.len() == chunks@.len(),
        forall|k: int|
            0 <= k < chunks@.len() ==> is_embedded_chunk(
                chunks@[k]@,
                #[trigger] embedded@[k]@,
                views(vocabulary@),
            ),
{
    let mut embedded: Vec<DocumentChunk> = Vec::new();
    let mut c: usize = 0;
    while c < chunks.len()
        invariant
            c <= chunks.len(),
            embedded@.len() == c,
            forall|k: int|
                0 <= k < c ==> is_embedded_chunk(
                    chunks@[k]@,
                    #[trigger] embedded@[k]@,
                    views(vocabulary@),
                ),
        decreases chunks.len() - c,
    {
        let chunk = &chunks[c];
        let tokens = tokenize(chunk.content.as_str());
        let vector = term_vector(&tokens, vocabulary);
        embedded.push(
            DocumentChunk {
                id: chunk.id.clone(),
                content: chunk.content.clone(),
                start_position: chunk.start_position,
                end_position: chunk.end_position,
                embedding: Some(vector),
            },
        );
        c += 1;
    }
    embedded
}

/// The documents with the term vector of each chunk over `vocabulary`
/// attached.
fn embed_documents(documents: &Vec<Document>, vocabulary: &Vec<String>) -> (embedded: Vec<
    Document,
>)
    ensures
        embedded@.len() == documents@.len(),
        forall|d: int|
            0 <= d < documents@.len() ==> is_embedded_document(
                documents@[d]@,
                #[trigger] embedded@[d]@,
                views(vocabulary@),
            ),
{
    let mut embedded: Vec<Document> = Vec::new();
    let mut d: usize = 0;
    while d < documents.len()
        invariant
            d <= documents.len(),
            embedded@.len() == d,
            forall|k: int|
                0 <= k < d ==> is_embedded_document(
                    documents@[k]@,
                    #[trigger] embedded@[k]@,
                    views(vocabulary@),
                ),
        decreases documents.len() - d,
    {
        let document = &documents[d];
        let chunks = embed_chunks(&document.chunks, vocabulary);
        embedded.push(
            Document {
                id: document.id.clone(),
                filename: document.filename.clone(),
                content: document.content.clone(),
                chunks,
            },
        );
        d += 1;
    }
    embedded
}

impl EmbeddingService {
    /// The statistics of every term of the corpus, in the order in which the
    /// terms first occur.
    pub closed spec fn term_table(&self) -> Seq<TermEntry> {
        self.terms@
    }

    /// The positions of the term table, ranked by descending total count.
    pub closed spec fn term_ranking(&self) -> Seq<usize> {
        self.ranking@
    }

    /// The vocabulary: the term at position `i` has index `i`.
    pub closed spec fn vocabulary_terms(&self) -> Seq<Seq<char>> {
        views(self.vocabulary@)
    }

    /// The number of chunks of the corpus.
    pub closed spec fn chunk_total(&self) -> usize {
        self.total_chunks
    }

    /// The ranking ranks the term table and the vocabulary is what the
    /// ranking selects.
    pub open spec fn wf(&self) -> bool {
        &&& entry_terms(self.term_table()).no_duplicates()
        &&& is_descending_order(entry_counts(self.term_table()), self.term_ranking())
        &&& self.vocabulary_terms() == vocabulary_of(
            entry_terms(self.term_table()),
            self.term_ranking(),
        )
    }

    /// The service holds the term model of the given corpus.
    pub open spec fn models(&self, corpus: Seq<Seq<Seq<char>>>) -> bool {
        &&& self.wf()
        &&& is_term_table(corpus, self.term_table())
        &&& self.chunk_total() == corpus.len()
    }

    /// The term model of the empty corpus.
    pub fn new() -> (service: Self)
        ensures
            service.models(Seq::empty()),
            service.vocabulary_terms().len() == 0,
    {
        let service = EmbeddingService {
            terms: Vec::new(),
            ranking: Vec::new(),
            vocabulary: Vec::new(),
            total_chunks: 0,
        };
        assert(entry_terms(service.terms@) == Seq::<Seq<char>>::empty());
        assert(views(service.vocabulary@) == vocabulary_of(
            entry_terms(service.terms@),
            service.ranking@,
        ));
        service
    }

    /// The vocabulary, in index order.
    pub fn vocabulary(&self) -> (vocabulary: &Vec<String>)
        ensures
            views(vocabulary@) == self.vocabulary_terms(),
    {
        &self.vocabulary
    }

    /// The statistics of every term of the corpus.
    pub fn term_entries(&self) -> (entries: &Vec<TermEntry>)
        ensures
            entries@ == self.term_table(),
    {
        &self.terms
    }

    /// The number of chunks of the corpus.
    pub fn total_chunks(&self) -> (n: usize)
        ensures
            n == self.chunk_total(),
    {
        self.total_chunks
    }

    /// The index of a term in the vocabulary, if the vocabulary holds it.
    pub fn vocabulary_index(&self, term: &String) -> (index: Option<usize>)
        ensures
            match index {
                Some(i) => self.vocabulary_terms().index_of_first(term@) == Some(i as int),
                None => self.vocabulary_terms().index_of_first(term@) is None,
            },
    {
        let mut i: usize = 0;
        while i < self.vocabulary.len()
            invariant
                i <= self.vocabulary.len(),
                forall|k: int| 0 <= k < i ==> views(self.vocabulary@)[k] != term@,
            decreases self.vocabulary.len() - i,
        {
            if self.vocabulary[i] == *term {
                proof {
                    views(self.vocabulary@).index_of_first_ensures(term@);
                    assert(views(self.vocabulary@)[i as int] == term@);
                }
                return Some(i);
            }
            i += 1;
        }
        proof {
            views(self.vocabulary@).index_of_first_ensures(term@);
        }
        None
    }

    /// The number of chunks in which a term occurs, if the corpus holds
    /// the term.
    pub fn document_frequency(&self, term: &String) -> (frequency: Option<usize>)
        ensures
            frequency == match entry_terms(self.term_table()).index_of_first(term@) {
                Some(i) => Some(self.term_table()[i].doc_frequency),
                None => None,
            },
    {
        proof {
            entry_terms(self.terms@).index_of_first_ensures(term@);
        }
        match find_term(&self.terms, term) {
            Some(i) => {
                assert(entry_terms(self.terms@)[i as int] == term@);
                Some(self.terms[i].doc_frequency)
            },
            None => None,
        }
    }

    /// Splits a text into its terms.
    pub fn tokenize(&self, text: &str) -> (tokens: Vec<String>)
        ensures
            views(tokens@) == tokens_of(text@),
    {
        tokenize(text)
    }

    /// Counts how often each term occurs in a list of tokens.
    pub fn count_words(&self, words: &Vec<String>) -> (counts: Vec<WordCount>)
        ensures
            counts_tokens(views(words@), counts@),
    {
        count_words(words)
    }

    /// The term vector of a text over the vocabulary of the service.
    pub fn create_tfidf_embedding(&self, text: &str) -> (v: TermVector)
        ensures
            is_term_vector(v@, tokens_of(text@), self.vocabulary_terms()),
    {
        let tokens = tokenize(text);
        term_vector(&tokens, &self.vocabulary)
    }

    /// Builds the term model of the corpus that the documents form, keeps it
    /// in the service, and attaches to every chunk its term vector over the
    /// new vocabulary.
    pub fn generate_embeddings(&mut self, documents: &mut Vec<Document>)
        ensures
            final(self).models(corpus_of(document_views(old(documents)@))),
            final(documents)@.len() == old(documents)@.len(),
            forall|d: int|
                0 <= d < old(documents)@.len() ==> is_embedded_document(
                    old(documents)@[d]@,
                    #[trigger] final(documents)@[d]@,
                    final(self).vocabulary_terms(),
                ),
    {
        let tokens = collect_chunk_tokens(documents);
        let table = build_term_table(&tokens);
        let counts = table_counts(&table);
        let ranking = descending_order(&counts);
        let vocabulary = select_vocabulary(&table, &ranking);
        let embedded = embed_documents(documents, &vocabulary);
        proof {
            lemma_corpus_terms_no_duplicates(corpus_view(tokens@));
        }
        self.total_chunks = tokens.len();
        self.terms = table;
        self.ranking = ranking;
        self.vocabulary = vocabulary;
        *documents = embedded;
    }

    /// The term vector of a query over the vocabulary of the service.
    pub fn embed_query(&self, query: &str) -> (v: TermVector)
        ensures
            is_term_vector(v@, tokens_of(query@), self.vocabulary_terms()),
    {
        self.create_tfidf_embedding(query)
    }
}

} // verus!
