use crate::text::views;
use vstd::hash_map::StringHashMap;
use vstd::prelude::*;

verus! {

/// How often a term occurs in a sequence of tokens.
pub open spec fn occurrences(tokens: Seq<Seq<char>>, term: Seq<char>) -> nat
    decreases tokens.len(),
{
    if tokens.len() == 0 {
        0
    } else if tokens.last() == term {
        occurrences(tokens.drop_last(), term) + 1
    } else {
        occurrences(tokens.drop_last(), term)
    }
}

/// The terms of a sequence of tokens, each once, in the order in which they
/// first occur.
pub open spec fn distinct_terms(tokens: Seq<Seq<char>>) -> Seq<Seq<char>>
    decreases tokens.len(),
{
    if tokens.len() == 0 {
        Seq::empty()
    } else {
        let earlier = distinct_terms(tokens.drop_last());
        if earlier.contains(tokens.last()) {
            earlier
        } else {
            earlier.push(tokens.last())
        }
    }
}

/// A term and the number of times it occurs in one text.
#[derive(Debug, PartialEq, Eq)]
pub struct WordCount {
    pub word: String,
    pub count: usize,
}

/// The terms of a list of word counts, in order.
pub open spec fn counted_words(counts: Seq<WordCount>) -> Seq<Seq<char>> {
    Seq::new(counts.len(), |i: int| counts[i].word@)
}

/// `counts` lists the distinct terms of `tokens` in the order of their first
/// occurrence, each with the number of its occurrences.
pub open spec fn counts_tokens(tokens: Seq<Seq<char>>, counts: Seq<WordCount>) -> bool {
    &&& counted_words(counts) == distinct_terms(tokens)
    &&& forall|i: int|
        0 <= i < counts.len() ==> (#[trigger] counts[i]).count == occurrences(
            tokens,
            counts[i].word@,
        )
}

/// A term is among the distinct terms of a sequence exactly if it occurs in
/// the sequence.
pub proof fn lemma_distinct_terms_contains(tokens: Seq<Seq<char>>, term: Seq<char>)
    ensures
        distinct_terms(tokens).contains(term) <==> tokens.contains(term),
    decreases tokens.len(),
{
    if tokens.len() > 0 {
        let rest = tokens.drop_last();
        lemma_distinct_terms_contains(rest, term);
        let earlier = distinct_terms(rest);
        let all = distinct_terms(tokens);
        if tokens.contains(term) {
            let k = choose|k: int| 0 <= k < tokens.len() && tokens[k] == term;
            if k < rest.len() {
                assert(rest[k] == term);
                let m = choose|m: int| 0 <= m < earlier.len() && earlier[m] == term;
                assert(all[m] == term);
            } else if earlier.contains(tokens.last()) {
                assert(all == earlier);
            } else {
                assert(all[earlier.len() as int] == term);
            }
        }
        if all.contains(term) {
            let m = choose|m: int| 0 <= m < all.len() && all[m] == term;
            if m < earlier.len() {
                assert(earlier[m] == term);
                let k = choose|k: int| 0 <= k < rest.len() && rest[k] == term;
                assert(tokens[k] == term);
            } else {
                assert(tokens[tokens.len() - 1] == term);
            }
        }
    }
}

/// No term occurs twice among the distinct terms of a sequence.
pub proof fn lemma_distinct_terms_no_duplicates(tokens: Seq<Seq<char>>)
    ensures
        distinct_terms(tokens).no_duplicates(),
    decreases tokens.len(),
{
    if tokens.len() > 0 {
        lemma_distinct_terms_no_duplicates(tokens.drop_last());
    }
}

/// A term that is absent from a sequence occurs in it zero times.
pub proof fn lemma_absent_term(tokens: Seq<Seq<char>>, term: Seq<char>)
    requires
        !tokens.contains(term),
    ensures
        occurrences(tokens, term) == 0,
    decreases tokens.len(),
{
    if tokens.len() > 0 {
        let rest = tokens.drop_last();
        assert(tokens[tokens.len() - 1] != term);
        assert forall|k: int| 0 <= k < rest.len() implies rest[k] != term by {
            assert(tokens[k] != term);
        }
        lemma_absent_term(rest, term);
    }
}

/// A term that is present in a sequence occurs in it at least once.
pub proof fn lemma_present_term(tokens: Seq<Seq<char>>, term: Seq<char>)
    requires
        tokens.contains(term),
    ensures
        occurrences(tokens, term) >= 1,
    decreases tokens.len(),
{
    let k = choose|k: int| 0 <= k < tokens.len() && tokens[k] == term;
    if tokens.last() != term {
        assert(tokens.drop_last()[k] == term);
        lemma_present_term(tokens.drop_last(), term);
    }
}

/// A term occurs in a sequence at most as often as the sequence is long.
pub proof fn lemma_occurrences_bound(tokens: Seq<Seq<char>>, term: Seq<char>)
    ensures
        occurrences(tokens, term) <= tokens.len(),
    decreases tokens.len(),
{
    if tokens.len() > 0 {
        lemma_occurrences_bound(tokens.drop_last(), term);
    }
}

/// The position of a term among word counts, if it is there.
fn find_word(counts: &Vec<WordCount>, word: &String) -> (found: Option<usize>)
    ensures
        match found {
            Some(j) => j < counts.len() && counts@[j as int].word@ == word@,
            None => !counted_words(counts@).contains(word@),
        },
{
    let mut j: usize = 0;
    while j < counts.len()
        invariant
            j <= counts.len(),
            forall|k: int| 0 <= k < j ==> (#[trigger] counts@[k]).word@ != word@,
        decreases counts.len() - j,
    {
        if counts[j].word == *word {
            return Some(j);
        }
        j += 1;
    }
    None
}

/// Counts how often each term occurs in a list of tokens.
pub fn count_words(words: &Vec<String>) -> (counts: Vec<WordCount>)
    ensures
        counts_tokens(views(words@), counts@),
{
    let mut counts: Vec<WordCount> = Vec::new();
    let mut i: usize = 0;
    assert(views(words@).take(0) == Seq::<Seq<char>>::empty());
    assert(counted_words(counts@) == Seq::<Seq<char>>::empty());
    while i < words.len()
        invariant
            i <= words.len(),
            counts_tokens(views(words@).take(i as int), counts@),
        decreases words.len() - i,
    {
        let ghost seen = views(words@).take(i as int);
        let ghost next = views(words@).take(i as int + 1);
        let ghost before = counts@;
        assert(next.drop_last() == seen);
        assert(next.last() == words@[i as int]@);
        match find_word(&counts, &words[i]) {
            Some(j) => {
                proof {
                    lemma_occurrences_bound(seen, words@[i as int]@);
                    lemma_distinct_terms_no_duplicates(seen);
                    assert(counted_words(before)[j as int] == words@[i as int]@);
                }
                counts[j].count = counts[j].count + 1;
                proof {
                    assert(counted_words(counts@) == counted_words(before));
                    assert forall|k: int| 0 <= k < counts@.len() implies (#[trigger] counts@[k]).count
                        == occurrences(next, counts@[k].word@) by {
                        if k != j {
                            assert(counted_words(before)[k] != counted_words(before)[j as int]);
                        }
                    }
                }
            },
            None => {
                proof {
                    lemma_distinct_terms_contains(seen, words@[i as int]@);
                    lemma_absent_term(seen, words@[i as int]@);
                }
                counts.push(WordCount { word: words[i].clone(), count: 1 });
                proof {
                    assert(counted_words(counts@) == counted_words(before).push(words@[i as int]@));
                    assert forall|k: int| 0 <= k < counts@.len() implies (#[trigger] counts@[k]).count
                        == occurrences(next, counts@[k].word@) by {
                        if k < before.len() {
                            assert(counts@[k] == before[k]);
                            assert(counted_words(before)[k] == before[k].word@);
                        }
                    }
                }
            },
        }
        i += 1;
    }
    assert(views(words@).take(i as int) == views(words@));
    counts
}

/// How often a term occurs in a corpus, which is a sequence of chunks, each
/// a sequence of tokens.
pub open spec fn corpus_occurrences(corpus: Seq<Seq<Seq<char>>>, term: Seq<char>) -> nat
    decreases corpus.len(),
{
    if corpus.len() == 0 {
        0
    } else {
        corpus_occurrences(corpus.drop_last(), term) + occurrences(corpus.last(), term)
    }
}

/// In how many chunks of a corpus a term occurs at least once.
pub open spec fn document_frequency(corpus: Seq<Seq<Seq<char>>>, term: Seq<char>) -> nat
    decreases corpus.len(),
{
    if corpus.len() == 0 {
        0
    } else if corpus.last().contains(term) {
        document_frequency(corpus.drop_last(), term) + 1
    } else {
        document_frequency(corpus.drop_last(), term)
    }
}

/// The terms of `known`, followed by those of `fresh` that are not yet
/// known, in their order.
pub open spec fn append_new(known: Seq<Seq<char>>, fresh: Seq<Seq<char>>) -> Seq<Seq<char>>
    decreases fresh.len(),
{
    if fresh.len() == 0 {
        known
    } else {
        let earlier = append_new(known, fresh.drop_last());
        if earlier.contains(fresh.last()) {
            earlier
        } else {
            earlier.push(fresh.last())
        }
    }
}

/// The terms of a corpus, each once, in the order in which they first occur.
pub open spec fn corpus_terms(corpus: Seq<Seq<Seq<char>>>) -> Seq<Seq<char>>
    decreases corpus.len(),
{
    if corpus.len() == 0 {
        Seq::empty()
    } else {
        append_new(corpus_terms(corpus.drop_last()), distinct_terms(corpus.last()))
    }
}

/// What a corpus says about one term: how often it occurs in all, and in how
/// many chunks.
#[derive(Debug, PartialEq, Eq)]
pub struct TermEntry {
    pub term: String,
    pub count: u128,
    pub doc_frequency: usize,
}

/// The terms of a term table, in order.
pub open spec fn entry_terms(table: Seq<TermEntry>) -> Seq<Seq<char>> {
    Seq::new(table.len(), |i: int| table[i].term@)
}

/// The total counts of a term table, in order.
pub open spec fn entry_counts(table: Seq<TermEntry>) -> Seq<u128> {
    Seq::new(table.len(), |i: int| table[i].count)
}

/// `table` lists the terms of `corpus` in the order of their first
/// occurrence, each with its total count and its document frequency.
pub open spec fn is_term_table(corpus: Seq<Seq<Seq<char>>>, table: Seq<TermEntry>) -> bool {
    &&& entry_terms(table) == corpus_terms(corpus)
    &&& forall|i: int|
        0 <= i < table.len() ==> (#[trigger] table[i]).count == corpus_occurrences(
            corpus,
            table[i].term@,
        )
    &&& forall|i: int|
        0 <= i < table.len() ==> (#[trigger] table[i]).doc_frequency == document_frequency(
            corpus,
            table[i].term@,
        )
}

/// A term is in `append_new(known, fresh)` exactly if it is in one of the
/// two.
pub proof fn lemma_append_new_contains(
    known: Seq<Seq<char>>,
    fresh: Seq<Seq<char>>,
    term: Seq<char>,
)
    ensures
        append_new(known, fresh).contains(term) <==> known.contains(term) || fresh.contains(term),
    decreases fresh.len(),
{
    if fresh.len() > 0 {
        let rest = fresh.drop_last();
        lemma_append_new_contains(known, rest, term);
        let earlier = append_new(known, rest);
        let all = append_new(known, fresh);
        if fresh.contains(term) {
            let k = choose|k: int| 0 <= k < fresh.len() && fresh[k] == term;
            if k < rest.len() {
                assert(rest[k] == term);
            }
        }
        if rest.contains(term) {
            let k = choose|k: int| 0 <= k < rest.len() && rest[k] == term;
            assert(fresh[k] == term);
        }
        if earlier.contains(term) {
            let m = choose|m: int| 0 <= m < earlier.len() && earlier[m] == term;
            assert(all[m] == term);
        }
        if all.contains(term) {
            let m = choose|m: int| 0 <= m < all.len() && all[m] == term;
            if m < earlier.len() {
                assert(earlier[m] == term);
            } else {
                assert(fresh[fresh.len() - 1] == term);
            }
        }
        if term == fresh.last() {
            assert(fresh[fresh.len() - 1] == term);
            if !earlier.contains(term) {
                assert(all[earlier.len() as int] == term);
            }
        }
    }
}

/// Appending new terms to a list without duplicates gives one without
/// duplicates.
pub proof fn lemma_append_new_no_duplicates(known: Seq<Seq<char>>, fresh: Seq<Seq<char>>)
    requires
        known.no_duplicates(),
    ensures
        append_new(known, fresh).no_duplicates(),
    decreases fresh.len(),
{
    if fresh.len() > 0 {
        lemma_append_new_no_duplicates(known, fresh.drop_last());
    }
}

/// No term occurs twice among the terms of a corpus.
pub proof fn lemma_corpus_terms_no_duplicates(corpus: Seq<Seq<Seq<char>>>)
    ensures
        corpus_terms(corpus).no_duplicates(),
    decreases corpus.len(),
{
    if corpus.len() > 0 {
        lemma_corpus_terms_no_duplicates(corpus.drop_last());
        lemma_append_new_no_duplicates(
            corpus_terms(corpus.drop_last()),
            distinct_terms(corpus.last()),
        );
    }
}

/// A term that is not among the terms of a corpus occurs in none of its
/// chunks.
pub proof fn lemma_unknown_term(corpus: Seq<Seq<Seq<char>>>, term: Seq<char>)
    requires
        !corpus_terms(corpus).contains(term),
    ensures
        corpus_occurrences(corpus, term) == 0,
        document_frequency(corpus, term) == 0,
    decreases corpus.len(),
{
    if corpus.len() > 0 {
        lemma_append_new_contains(
            corpus_terms(corpus.drop_last()),
            distinct_terms(corpus.last()),
            term,
        );
        lemma_distinct_terms_contains(corpus.last(), term);
        lemma_absent_term(corpus.last(), term);
        lemma_unknown_term(corpus.drop_last(), term);
    }
}

/// A term is among the terms of a corpus exactly if it occurs in one of the
/// chunks: every term that occurs has its entry in the term table.
pub proof fn lemma_corpus_terms_contains(corpus: Seq<Seq<Seq<char>>>, term: Seq<char>)
    ensures
        corpus_terms(corpus).contains(term) <==> exists|k: int|
            0 <= k < corpus.len() && (#[trigger] corpus[k]).contains(term),
    decreases corpus.len(),
{
    if corpus.len() > 0 {
        let rest = corpus.drop_last();
        lemma_corpus_terms_contains(rest, term);
        lemma_append_new_contains(corpus_terms(rest), distinct_terms(corpus.last()), term);
        lemma_distinct_terms_contains(corpus.last(), term);
        if corpus_terms(corpus).contains(term) {
            if corpus_terms(rest).contains(term) {
                let k = choose|k: int| 0 <= k < rest.len() && (#[trigger] rest[k]).contains(term);
                assert(corpus[k].contains(term));
            } else {
                assert(corpus[corpus.len() - 1].contains(term));
            }
        }
        if exists|k: int| 0 <= k < corpus.len() && (#[trigger] corpus[k]).contains(term) {
            let k = choose|k: int| 0 <= k < corpus.len() && (#[trigger] corpus[k]).contains(term);
            if k < rest.len() {
                assert(rest[k].contains(term));
            }
        }
    }
}

/// A term that occurs in every chunk has the number of chunks as its
/// document frequency.
pub proof fn lemma_ubiquitous_term(corpus: Seq<Seq<Seq<char>>>, term: Seq<char>)
    requires
        forall|k: int| 0 <= k < corpus.len() ==> (#[trigger] corpus[k]).contains(term),
    ensures
        document_frequency(corpus, term) == corpus.len(),
    decreases corpus.len(),
{
    if corpus.len() > 0 {
        let rest = corpus.drop_last();
        assert forall|k: int| 0 <= k < rest.len() implies (#[trigger] rest[k]).contains(term) by {
            assert(rest[k] == corpus[k]);
        }
        lemma_ubiquitous_term(rest, term);
        assert(corpus[corpus.len() - 1].contains(term));
    }
}

/// Bounds on the counts of a corpus whose chunks hold at most `limit` tokens
/// each.
pub proof fn lemma_corpus_bounds(corpus: Seq<Seq<Seq<char>>>, term: Seq<char>, limit: nat)
    requires
        forall|k: int| 0 <= k < corpus.len() ==> (#[trigger] corpus[k]).len() <= limit,
    ensures
        corpus_occurrences(corpus, term) <= corpus.len() * limit,
        document_frequency(corpus, term) <= corpus.len(),
    decreases corpus.len(),
{
    if corpus.len() > 0 {
        let rest = corpus.drop_last();
        assert forall|k: int| 0 <= k < rest.len() implies (#[trigger] rest[k]).len() <= limit by {
            assert(rest[k] == corpus[k]);
        }
        lemma_corpus_bounds(rest, term, limit);
        lemma_occurrences_bound(corpus.last(), term);
        assert(corpus[corpus.len() - 1].len() <= limit);
        assert(corpus.len() * limit == rest.len() * limit + limit) by (nonlinear_arith)
            requires
                corpus.len() == rest.len() + 1,
        ;
    }
}

/// The state of a term table while the word counts of one more chunk are
/// merged into it: the first `upto` distinct terms of that chunk are in.
spec fn partly_merged(
    corpus: Seq<Seq<Seq<char>>>,
    tokens: Seq<Seq<char>>,
    upto: int,
    table: Seq<TermEntry>,
) -> bool {
    let fresh = distinct_terms(tokens).take(upto);
    &&& entry_terms(table) == append_new(corpus_terms(corpus), fresh)
    &&& forall|i: int|
        0 <= i < table.len() ==> (#[trigger] table[i]).count == corpus_occurrences(
            corpus,
            table[i].term@,
        ) + if fresh.contains(table[i].term@) {
            occurrences(tokens, table[i].term@)
        } else {
            0
        }
    &&& forall|i: int|
        0 <= i < table.len() ==> (#[trigger] table[i]).doc_frequency == document_frequency(
            corpus,
            table[i].term@,
        ) + if fresh.contains(table[i].term@) {
            1nat
        } else {
            0nat
        }
}

/// The position of a term in a term table, if it is there.
pub fn find_term(table: &Vec<TermEntry>, term: &String) -> (found: Option<usize>)
    ensures
        match found {
            Some(i) => i < table.len() && table@[i as int].term@ == term@ && forall|k: int|
                0 <= k < i ==> (#[trigger] table@[k]).term@ != term@,
            None => !entry_terms(table@).contains(term@),
        },
{
    let mut i: usize = 0;
    while i < table.len()
        invariant
            i <= table.len(),
            forall|k: int| 0 <= k < i ==> (#[trigger] table@[k]).term@ != term@,
        decreases table.len() - i,
    {
        if table[i].term == *term {
            return Some(i);
        }
        i += 1;
    }
    None
}

/// `index` maps each of the terms to its position, and nothing else.
spec fn indexes(index: Map<Seq<char>, usize>, terms: Seq<Seq<char>>) -> bool {
    &&& forall|i: int|
        0 <= i < terms.len() ==> index.contains_key(#[trigger] terms[i]) && index[terms[i]] == i
    &&& forall|t: Seq<char>|
        index.contains_key(t) ==> (#[trigger] index[t]) < terms.len() && terms[index[t] as int]
            == t
}

/// The position of a term in a term table, by its index.
fn look_up(table: &Vec<TermEntry>, index: &StringHashMap<usize>, term: &String) -> (found: Option<
    usize,
>)
    requires
        indexes(index@, entry_terms(table@)),
    ensures
        match found {
            Some(i) => i < table.len() && table@[i as int].term@ == term@,
            None => !entry_terms(table@).contains(term@),
        },
{
    match index.get(term.as_str()) {
        Some(position) => {
            assert(entry_terms(table@)[*position as int] == term@);
            Some(*position)
        },
        None => None,
    }
}

/// Merges the word counts of one more chunk into a term table.
fn merge_counts(
    table: &mut Vec<TermEntry>,
    index: &mut StringHashMap<usize>,
    counts: &Vec<WordCount>,
    Ghost(corpus): Ghost<Seq<Seq<Seq<char>>>>,
    Ghost(tokens): Ghost<Seq<Seq<char>>>,
)
    requires
        is_term_table(corpus, old(table)@),
        indexes(old(index)@, entry_terms(old(table)@)),
        counts_tokens(tokens, counts@),
        corpus.len() < usize::MAX,
        tokens.len() <= usize::MAX,
        forall|k: int| 0 <= k < corpus.len() ==> (#[trigger] corpus[k]).len() <= usize::MAX,
    ensures
        is_term_table(corpus.push(tokens), final(table)@),
        indexes(final(index)@, entry_terms(final(table)@)),
{
    let ghost distinct = distinct_terms(tokens);
    let ghost known = corpus_terms(corpus);
    let mut j: usize = 0;
    proof {
        assert(distinct.take(0) == Seq::<Seq<char>>::empty());
        lemma_distinct_terms_no_duplicates(tokens);
        lemma_corpus_terms_no_duplicates(corpus);
    }
    while j < counts.len()
        invariant
            j <= counts.len(),
            counts_tokens(tokens, counts@),
            distinct == distinct_terms(tokens),
            known == corpus_terms(corpus),
            distinct.no_duplicates(),
            known.no_duplicates(),
            partly_merged(corpus, tokens, j as int, table@),
            indexes(index@, entry_terms(table@)),
            corpus.len() < usize::MAX,
            tokens.len() <= usize::MAX,
            forall|k: int| 0 <= k < corpus.len() ==> (#[trigger] corpus[k]).len() <= usize::MAX,
        decreases counts.len() - j,
    {
        let ghost fresh = distinct.take(j as int);
        let ghost grown = distinct.take(j as int + 1);
        let ghost before = table@;
        let ghost word = counts@[j as int].word@;
        proof {
            assert(counted_words(counts@)[j as int] == word);
            assert(distinct[j as int] == word);
            assert(grown.drop_last() == fresh);
            assert(grown.last() == word);
            assert(grown == fresh.push(word));
            assert(!fresh.contains(word)) by {
                if fresh.contains(word) {
                    let m = choose|m: int| 0 <= m < fresh.len() && fresh[m] == word;
                    assert(distinct[m] == distinct[j as int]);
                }
            }
            assert(grown[j as int] == word);
            assert forall|t: Seq<char>| t != word implies (grown.contains(t) <==> fresh.contains(
                t,
            )) by {
                if grown.contains(t) {
                    let m = choose|m: int| 0 <= m < grown.len() && grown[m] == t;
                    assert(fresh[m] == t);
                }
                if fresh.contains(t) {
                    let m = choose|m: int| 0 <= m < fresh.len() && fresh[m] == t;
                    assert(grown[m] == t);
                }
            }
            lemma_append_new_no_duplicates(known, fresh);
            lemma_append_new_contains(known, fresh, word);
            lemma_corpus_bounds(corpus, word, usize::MAX as nat);
            lemma_occurrences_bound(tokens, word);
        }
        match look_up(table, index, &counts[j].word) {
            Some(i) => {
                proof {
                    assert(entry_terms(before)[i as int] == word);
                    assert(before[i as int].count == corpus_occurrences(corpus, word));
                    assert(corpus.len() * (usize::MAX as nat) + usize::MAX
                        <= 0xFFFF_FFFF_FFFF_FFFF * 0xFFFF_FFFF_FFFF_FFFF) by (nonlinear_arith)
                        requires
                            corpus.len() < usize::MAX,
                            usize::MAX <= 0xFFFF_FFFF_FFFF_FFFF,
                    ;
                }
                table[i].count = table[i].count + (counts[j].count as u128);
                table[i].doc_frequency = table[i].doc_frequency + 1;
                proof {
                    assert(entry_terms(table@) == entry_terms(before));
                    assert forall|k: int| 0 <= k < table@.len() && k != i implies table@[k]
                        == before[k] && table@[k].term@ != word by {
                        assert(entry_terms(before)[k] != entry_terms(before)[i as int]);
                    }
                }
            },
            None => {
                proof {
                    lemma_unknown_term(corpus, word);
                }
                index.insert(counts[j].word.clone(), table.len());
                table.push(
                    TermEntry {
                        term: counts[j].word.clone(),
                        count: counts[j].count as u128,
                        doc_frequency: 1,
                    },
                );
                proof {
                    assert(entry_terms(table@) == entry_terms(before).push(word));
                    assert forall|i: int| 0 <= i < before.len() implies entry_terms(before)[i]
                        != word by {
                        assert(entry_terms(before).contains(entry_terms(before)[i]));
                    }
                    assert forall|k: int| 0 <= k < before.len() implies table@[k] == before[k]
                        && table@[k].term@ != word by {
                        assert(entry_terms(before)[k] == before[k].term@);
                    }
                }
            },
        }
        j += 1;
    }
    proof {
        assert(distinct.take(j as int) == distinct);
        let whole = corpus.push(tokens);
        assert(whole.drop_last() == corpus);
        assert(whole.last() == tokens);
        assert forall|i: int| 0 <= i < table@.len() implies (#[trigger] table@[i]).count
            == corpus_occurrences(whole, table@[i].term@) && table@[i].doc_frequency
            == document_frequency(whole, table@[i].term@) by {
            lemma_distinct_terms_contains(tokens, table@[i].term@);
            if !tokens.contains(table@[i].term@) {
                lemma_absent_term(tokens, table@[i].term@);
            }
        }
    }
}

/// The tokens of each chunk of a corpus, as sequences of characters.
pub open spec fn corpus_view(chunks: Seq<Vec<String>>) -> Seq<Seq<Seq<char>>> {
    Seq::new(chunks.len(), |k: int| views(chunks[k]@))
}

/// Builds the term table of a corpus from the tokens of its chunks.
pub fn build_term_table(chunks: &Vec<Vec<String>>) -> (table: Vec<TermEntry>)
    ensures
        is_term_table(corpus_view(chunks@), table@),
{
    let mut table: Vec<TermEntry> = Vec::new();
    let mut index: StringHashMap<usize> = StringHashMap::new();
    let mut k: usize = 0;
    assert(corpus_view(chunks@).take(0) == Seq::<Seq<Seq<char>>>::empty());
    assert(entry_terms(table@) == Seq::<Seq<char>>::empty());
    while k < chunks.len()
        invariant
            k <= chunks.len(),
            is_term_table(corpus_view(chunks@).take(k as int), table@),
            indexes(index@, entry_terms(table@)),
        decreases chunks.len() - k,
    {
        let counts = count_words(&chunks[k]);
        let ghost corpus = corpus_view(chunks@).take(k as int);
        let ghost tokens = views(chunks@[k as int]@);
        assert(tokens.len() == chunks[k as int].len());
        assert forall|m: int| 0 <= m < corpus.len() implies (#[trigger] corpus[m]).len()
            <= usize::MAX by {
            assert(corpus[m].len() == chunks[m].len());
        }
        assert(corpus.push(tokens) == corpus_view(chunks@).take(k as int + 1));
        merge_counts(&mut table, &mut index, &counts, Ghost(corpus), Ghost(tokens));
        k += 1;
    }
    assert(corpus_view(chunks@).take(k as int) == corpus_view(chunks@));
    table
}

} // verus!
