use crate::text::{
    alphanumeric,
    byte_len,
    byte_length,
    chars_of,
    lowercased,
    string_of,
    views,
    white_space,
};
use vstd::prelude::*;

verus! {

/// Scans a text from the left and returns the words that white space has
/// already closed, and the characters of the word that is still open.
pub open spec fn split_scan(s: Seq<char>) -> (Seq<Seq<char>>, Seq<char>)
    decreases s.len(),
{
    if s.len() == 0 {
        (Seq::empty(), Seq::empty())
    } else {
        let (closed, open) = split_scan(s.drop_last());
        if white_space(s.last()) {
            if open.len() > 0 {
                (closed.push(open), Seq::empty())
            } else {
                (closed, open)
            }
        } else {
            (closed, open.push(s.last()))
        }
    }
}

/// The maximal runs of characters of a text that hold no white space, in
/// order.
pub open spec fn words(s: Seq<char>) -> Seq<Seq<char>> {
    let (closed, open) = split_scan(s);
    if open.len() > 0 {
        closed.push(open)
    } else {
        closed
    }
}

/// The alphabetic and numeric characters of a word, in order.
pub open spec fn alphanumeric_only(word: Seq<char>) -> Seq<char>
    decreases word.len(),
{
    if word.len() == 0 {
        Seq::empty()
    } else if alphanumeric(word.last()) {
        alphanumeric_only(word.drop_last()).push(word.last())
    } else {
        alphanumeric_only(word.drop_last())
    }
}

/// A stripped word is dropped if its UTF-8 encoding has no more bytes than
/// this.
pub const SHORT_WORD_BYTES: usize = 2;

/// A stripped word counts as a term when its UTF-8 encoding is longer than
/// `SHORT_WORD_BYTES`.
pub open spec fn is_term(word: Seq<char>) -> bool {
    byte_len(word) > SHORT_WORD_BYTES
}

/// The terms that a sequence of words yields: each word is stripped of all
/// but its alphabetic and numeric characters, and kept if what is left is a
/// term.
pub open spec fn terms_of_words(ws: Seq<Seq<char>>) -> Seq<Seq<char>>
    decreases ws.len(),
{
    if ws.len() == 0 {
        Seq::empty()
    } else {
        let stripped = alphanumeric_only(ws.last());
        if is_term(stripped) {
            terms_of_words(ws.drop_last()).push(stripped)
        } else {
            terms_of_words(ws.drop_last())
        }
    }
}

/// The terms of a text: the text is put in lower case, split at white
/// space, and each word stripped and filtered.
pub open spec fn tokens_of(text: Seq<char>) -> Seq<Seq<char>> {
    terms_of_words(words(lowercased(text)))
}

/// Every term is longer than `SHORT_WORD_BYTES`.
pub proof fn lemma_terms_are_terms(ws: Seq<Seq<char>>)
    ensures
        forall|i: int|
            0 <= i < terms_of_words(ws).len() ==> is_term(#[trigger] terms_of_words(ws)[i]),
    decreases ws.len(),
{
    if ws.len() > 0 {
        lemma_terms_are_terms(ws.drop_last());
        let rest = terms_of_words(ws.drop_last());
        assert forall|i: int| 0 <= i < terms_of_words(ws).len() implies is_term(
            #[trigger] terms_of_words(ws)[i],
        ) by {
            if i < rest.len() {
                assert(terms_of_words(ws)[i] == rest[i]);
            }
        }
    }
}

/// A stripped word holds alphabetic and numeric characters only.
pub proof fn lemma_stripped_is_alphanumeric(word: Seq<char>)
    ensures
        forall|i: int|
            0 <= i < alphanumeric_only(word).len() ==> alphanumeric(
                #[trigger] alphanumeric_only(word)[i],
            ),
    decreases word.len(),
{
    if word.len() > 0 {
        lemma_stripped_is_alphanumeric(word.drop_last());
        let rest = alphanumeric_only(word.drop_last());
        assert forall|i: int| 0 <= i < alphanumeric_only(word).len() implies alphanumeric(
            #[trigger] alphanumeric_only(word)[i],
        ) by {
            if i < rest.len() {
                assert(alphanumeric_only(word)[i] == rest[i]);
            }
        }
    }
}

/// Every term holds alphabetic and numeric characters only.
pub proof fn lemma_terms_are_alphanumeric(ws: Seq<Seq<char>>)
    ensures
        forall|i: int, j: int|
            0 <= i < terms_of_words(ws).len() && 0 <= j < terms_of_words(ws)[i].len()
                ==> alphanumeric(#[trigger] terms_of_words(ws)[i][j]),
    decreases ws.len(),
{
    if ws.len() > 0 {
        lemma_terms_are_alphanumeric(ws.drop_last());
        lemma_stripped_is_alphanumeric(ws.last());
        let rest = terms_of_words(ws.drop_last());
        assert forall|i: int, j: int|
            0 <= i < terms_of_words(ws).len() && 0 <= j < terms_of_words(
                ws,
            )[i].len() implies alphanumeric(#[trigger] terms_of_words(ws)[i][j]) by {
            if i < rest.len() {
                assert(terms_of_words(ws)[i] == rest[i]);
            }
        }
    }
}

/// Splits a text into its terms.
pub fn tokenize(text: &str) -> (tokens: Vec<String>)
    ensures
        views(tokens@) == tokens_of(text@),
{
    let lower = text.to_lowercase();
    terms_of_text(lower.as_str())
}

/// The terms of a text that is in lower case already: the text is split at
/// white space, and each word stripped and filtered.
pub fn terms_of_text(lower: &str) -> (tokens: Vec<String>)
    ensures
        views(tokens@) == terms_of_words(words(lower@)),
{
    let chars = chars_of(lower);
    let mut tokens: Vec<String> = Vec::new();
    let mut stripped: Vec<char> = Vec::new();
    let mut i: usize = 0;
    assert(chars@.take(0) == Seq::<char>::empty());
    assert(views(tokens@) == Seq::<Seq<char>>::empty());
    while i < chars.len()
        invariant
            i <= chars.len(),
            views(tokens@) == terms_of_words(split_scan(chars@.take(i as int)).0),
            stripped@ == alphanumeric_only(split_scan(chars@.take(i as int)).1),
        decreases chars.len() - i,
    {
        let c = chars[i];
        let ghost before = chars@.take(i as int);
        let ghost after = chars@.take(i as int + 1);
        assert(after.drop_last() == before);
        assert(after.last() == c);
        if c.is_whitespace() {
            let ghost open = split_scan(before).1;
            let ghost closed = split_scan(before).0;
            let token = string_of(&stripped);
            if byte_length(token.as_str()) > SHORT_WORD_BYTES {
                let ghost old_tokens = tokens@;
                tokens.push(token);
                assert(views(tokens@) == views(old_tokens).push(stripped@));
                assert(open.len() > 0);
                assert(closed.push(open).drop_last() == closed);
            } else {
                proof {
                    if open.len() > 0 {
                        assert(closed.push(open).drop_last() == closed);
                    }
                }
            }
            stripped = Vec::new();
        } else {
            let ghost open = split_scan(before).1;
            assert(open.push(c).drop_last() == open);
            if c.is_alphanumeric() {
                stripped.push(c);
            }
        }
        i += 1;
    }
    assert(chars@.take(i as int) == chars@);
    let ghost closed = split_scan(chars@).0;
    let ghost open = split_scan(chars@).1;
    let token = string_of(&stripped);
    if byte_length(token.as_str()) > SHORT_WORD_BYTES {
        let ghost old_tokens = tokens@;
        tokens.push(token);
        assert(views(tokens@) == views(old_tokens).push(stripped@));
        assert(open.len() > 0);
        assert(closed.push(open).drop_last() == closed);
    } else {
        proof {
            if open.len() > 0 {
                assert(closed.push(open).drop_last() == closed);
            }
        }
    }
    tokens
}

} // verus!
