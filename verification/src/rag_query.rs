use crate::payloads::RagResponse;
use crate::text::{byte_len, byte_length, views};
use vstd::prelude::*;
use vstd::string::StringExecFns;
use vstd::utf8::{decode_utf8, encode_utf8, is_char_boundary};

verus! {

/// A snippet quotes at most this many bytes of the context.
pub const SNIPPET_BYTES: usize = 200;

/// What stands above the context of a provided document.
pub const PROVIDED_HEADING: &'static str = "### PROVIDED DOCUMENT CONTEXT:\n";

/// The context that stands in when no document is provided.
pub const GENERAL_CONTEXT: &'static str =
    "### GENERAL KNOWLEDGE BASE CONTEXT:\nGeneral information about Rust programming language is available.\nPolicies often cover terms like 'deductible', 'premium', 'claim process', and 'coverage limits'.\n\n";

/// What stands between the context and the question.
pub const QUESTION_HEADING: &'static str = "\n\n### USER QUESTION:\n";

/// What closes the prompt.
pub const ANSWER_HEADING: &'static str = "\n\n### ANSWER:";

/// The snippet that reports that no document was provided.
pub const GENERAL_SNIPPET: &'static str = "General knowledge context used.";

/// The snippet that reports that the context was cut.
pub const TRUNCATED_SNIPPET: &'static str = "... (truncated)";

/// The decimal digit of a number below ten.
pub open spec fn digit_of(d: nat) -> char {
    if d == 0 {
        '0'
    } else if d == 1 {
        '1'
    } else if d == 2 {
        '2'
    } else if d == 3 {
        '3'
    } else if d == 4 {
        '4'
    } else if d == 5 {
        '5'
    } else if d == 6 {
        '6'
    } else if d == 7 {
        '7'
    } else if d == 8 {
        '8'
    } else {
        '9'
    }
}

/// A number written in decimal digits.
pub open spec fn decimal_of(n: nat) -> Seq<char>
    decreases n,
{
    if n < 10 {
        seq![digit_of(n)]
    } else {
        decimal_of(n / 10).push(digit_of(n % 10))
    }
}

/// The first bytes of a text as a text: all of it if it has no more than
/// `SNIPPET_BYTES` bytes, else what its first `SNIPPET_BYTES` bytes encode.
pub open spec fn snippet_head(context: Seq<char>) -> Seq<char> {
    if byte_len(context) <= SNIPPET_BYTES {
        context
    } else {
        decode_utf8(encode_utf8(context).subrange(0, SNIPPET_BYTES as int))
    }
}

/// A context can be quoted if it is short or if a character ends with its
/// byte of number `SNIPPET_BYTES`.
pub open spec fn can_be_quoted(context: Seq<char>) -> bool {
    byte_len(context) <= SNIPPET_BYTES || is_char_boundary(
        encode_utf8(context),
        SNIPPET_BYTES as int,
    )
}

/// The number of bytes that a snippet quotes of a context.
pub open spec fn quoted_bytes(context: Seq<char>) -> nat {
    if byte_len(context) <= SNIPPET_BYTES {
        byte_len(context)
    } else {
        SNIPPET_BYTES as nat
    }
}

/// The snippets that report which context an answer rests on.
pub open spec fn snippets_of(context: Seq<char>) -> Seq<Seq<char>> {
    if context.len() == 0 {
        seq![GENERAL_SNIPPET@]
    } else {
        let first = "Context from uploaded file (first "@ + decimal_of(quoted_bytes(context))
            + " chars): "@ + snippet_head(context);
        if byte_len(context) > SNIPPET_BYTES {
            seq![first, TRUNCATED_SNIPPET@]
        } else {
            seq![first]
        }
    }
}

/// The context as it stands in the prompt.
pub open spec fn context_block(context: Seq<char>) -> Seq<char> {
    if context.len() == 0 {
        GENERAL_CONTEXT@
    } else {
        PROVIDED_HEADING@ + context + "\n\n"@
    }
}

/// The prompt for a question on a context.
pub open spec fn llm_prompt_of(query: Seq<char>, context: Seq<char>) -> Seq<char> {
    context_block(context) + QUESTION_HEADING@ + query + ANSWER_HEADING@
}

/// The answer that stands in for one of a generation service.
pub open spec fn placeholder_answer(query: Seq<char>, context: Seq<char>) -> Seq<char> {
    if context.len() == 0 {
        "Based on general knowledge, the answer to your question about '"@ + query
            + "' is: Rust is a systems programming language focused on safety, performance, and concurrency. No specific document context was provided."@
    } else {
        "Based on the provided document context and your question about '"@ + query
            + "', here is the synthesized answer: [LLM would generate answer here using the text from the PDF]. For instance, if you asked about fire damage, the document states: 'Fire damage to the insured property is covered up to a maximum of INR 10,00,000, as detailed in section 4.1.2.'"@
    }
}

/// The decimal digit of a number below ten.
pub fn digit(d: usize) -> (c: char)
    requires
        d < 10,
    ensures
        c == digit_of(d as nat),
{
    if d == 0 {
        '0'
    } else if d == 1 {
        '1'
    } else if d == 2 {
        '2'
    } else if d == 3 {
        '3'
    } else if d == 4 {
        '4'
    } else if d == 5 {
        '5'
    } else if d == 6 {
        '6'
    } else if d == 7 {
        '7'
    } else if d == 8 {
        '8'
    } else {
        '9'
    }
}

/// A number written in decimal digits.
pub fn decimal(n: usize) -> (text: String)
    ensures
        text@ == decimal_of(n as nat),
    decreases n,
{
    if n < 10 {
        let mut text = String::new();
        text.push(digit(n));
        text
    } else {
        let mut text = decimal(n / 10);
        text.push(digit(n % 10));
        text
    }
}

/// Whether a context can be quoted in a snippet.
pub fn is_quotable(context: &str) -> (quotable: bool)
    ensures
        quotable == can_be_quoted(context@),
{
    byte_length(context) <= SNIPPET_BYTES || context.is_char_boundary(SNIPPET_BYTES)
}

/// The prompt for a question on a context.
pub fn llm_prompt(user_query: &str, file_context: &str) -> (prompt: String)
    ensures
        prompt@ == llm_prompt_of(user_query@, file_context@),
{
    let mut prompt = String::new();
    if file_context.unicode_len() == 0 {
        prompt.append(GENERAL_CONTEXT);
    } else {
        prompt.append(PROVIDED_HEADING);
        prompt.append(file_context);
        prompt.append("\n\n");
    }
    prompt.append(QUESTION_HEADING);
    prompt.append(user_query);
    prompt.append(ANSWER_HEADING);
    prompt
}

/// The snippets that report which context an answer rests on.
pub fn context_snippets(file_context: &str) -> (snippets: Vec<String>)
    requires
        can_be_quoted(file_context@),
    ensures
        views(snippets@) == snippets_of(file_context@),
{
    let mut snippets: Vec<String> = Vec::new();
    if file_context.unicode_len() == 0 {
        snippets.push(GENERAL_SNIPPET.to_string());
        assert(views(snippets@) == seq![GENERAL_SNIPPET@]);
        return snippets;
    }
    let length = byte_length(file_context);
    let mut first = String::new();
    first.append("Context from uploaded file (first ");
    if length > SNIPPET_BYTES {
        let (head, _) = file_context.split_at(SNIPPET_BYTES);
        proof {
            vstd::utf8::encode_utf8_decode_utf8(head@);
        }
        first.append(decimal(SNIPPET_BYTES).as_str());
        first.append(" chars): ");
        first.append(head);
        snippets.push(first);
        snippets.push(TRUNCATED_SNIPPET.to_string());
        assert(views(snippets@) == snippets_of(file_context@));
    } else {
        first.append(decimal(length).as_str());
        first.append(" chars): ");
        first.append(file_context);
        snippets.push(first);
        assert(views(snippets@) == snippets_of(file_context@));
    }
    snippets
}

/// The answer that stands in for one of a generation service.
pub fn answer_placeholder(user_query: &str, file_context: &str) -> (answer: String)
    ensures
        answer@ == placeholder_answer(user_query@, file_context@),
{
    let mut answer = String::new();
    if file_context.unicode_len() == 0 {
        answer.append("Based on general knowledge, the answer to your question about '");
        answer.append(user_query);
        answer.append(
            "' is: Rust is a systems programming language focused on safety, performance, and concurrency. No specific document context was provided.",
        );
    } else {
        answer.append("Based on the provided document context and your question about '");
        answer.append(user_query);
        answer.append(
            "', here is the synthesized answer: [LLM would generate answer here using the text from the PDF]. For instance, if you asked about fire damage, the document states: 'Fire damage to the insured property is covered up to a maximum of INR 10,00,000, as detailed in section 4.1.2.'",
        );
    }
    answer
}

/// Answers a question on the text of a document, or on none: the answer
/// that stands in for the generation service, with the snippets that report
/// the context.
pub fn process_rag_query(user_query: String, file_context: String) -> (result: Result<
    RagResponse,
    String,
>)
    requires
        can_be_quoted(file_context@),
    ensures
        result matches Ok(response) && response.answer@ == placeholder_answer(
            user_query@,
            file_context@,
        ) && views(response.context_snippets@) == snippets_of(file_context@),
{
    let context_snippets = context_snippets(file_context.as_str());
    let answer = answer_placeholder(user_query.as_str(), file_context.as_str());
    Ok(RagResponse { answer, context_snippets })
}

} // verus!
