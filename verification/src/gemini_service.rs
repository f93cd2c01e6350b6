use crate::models::{
    document_views,
    ranked_views,
    Document,
    DocumentView,
    GeminiContent,
    GeminiGenerationConfig,
    GeminiPart,
    GeminiRequest,
    GeminiResponse,
    RankedChunk,
    RankedChunkView,
};
use crate::query_service::{find_owner, owner_of};
use vstd::prelude::*;
use vstd::string::StringExecFns;

verus! {

/// The instructions that open a prompt, up to the context.
pub const PROMPT_HEAD: &'static str =
    "You are an expert assistant that answers questions based solely on the provided context documents. \n\nINSTRUCTIONS:\n1. Answer the question using ONLY the information from the provided context\n2. Be concise but comprehensive\n3. If you quote or reference specific information, indicate which document it came from\n4. If the context doesn't contain enough information to answer the question, say so clearly\n5. Do not add information not present in the context\n6. Focus on accuracy and relevance\n7. If user provides info such as M or F the user is specifying it's gender for example: 46M, knee surgery, Pune, 3-month policy means 46 year old male asking if knee surgery is covered or not he is from pune and has 3 months policy\n\nCONTEXT DOCUMENTS:\n";

/// What stands between the context and the question.
pub const PROMPT_QUESTION: &'static str = "\n\nQUESTION: ";

/// What closes a prompt.
pub const PROMPT_TAIL: &'static str = "\n\nANSWER (be specific and cite sources):";

/// The answer that stands in when the service proposes none.
pub const NO_ANSWER: &'static str = "No response generated";

/// The address of the generation service, up to the key.
pub const ENDPOINT: &'static str =
    "https://generativelanguage.googleapis.com/v1beta/models/gemini-2.5-flash:generateContent?key=";

/// The sampling temperature of a request, in hundredths.
pub const TEMPERATURE_HUNDREDTHS: u32 = 30;

/// The largest number of tokens that an answer may have.
pub const MAX_OUTPUT_TOKENS: u32 = 1000;

/// What one retrieved chunk adds to the context: the name of its document
/// and its text.
pub open spec fn context_entry(filename: Seq<char>, content: Seq<char>) -> Seq<char> {
    "Document: "@ + filename + "\nContent: "@ + content + "\n\n"@
}

/// The context of a prompt: an entry for each retrieved chunk whose
/// document is found, in order.
pub open spec fn context_of(ranked: Seq<RankedChunkView>, documents: Seq<DocumentView>) -> Seq<
    char,
>
    decreases ranked.len(),
{
    if ranked.len() == 0 {
        Seq::empty()
    } else {
        let earlier = context_of(ranked.drop_last(), documents);
        match owner_of(documents, ranked.last().chunk.id) {
            Some(d) => earlier + context_entry(documents[d].filename, ranked.last().chunk.content),
            None => earlier,
        }
    }
}

/// The prompt for a question with its context.
pub open spec fn prompt_of(query: Seq<char>, context: Seq<char>) -> Seq<char> {
    PROMPT_HEAD@ + context + PROMPT_QUESTION@ + query + PROMPT_TAIL@
}

/// The answer that a response of the service holds: the first piece of text
/// of the first candidate, or `NO_ANSWER` if there is none.
pub open spec fn answer_of(response: GeminiResponse) -> Seq<char> {
    if response.candidates@.len() > 0 && response.candidates@[0].content.parts@.len() > 0 {
        response.candidates@[0].content.parts@[0].text@
    } else {
        NO_ANSWER@
    }
}

/// The context of a prompt: see `context_of`.
pub fn build_context(chunks: &Vec<RankedChunk>, documents: &Vec<Document>) -> (context: String)
    ensures
        context@ == context_of(ranked_views(chunks@), document_views(documents@)),
{
    let mut context = String::new();
    let ghost ranked = ranked_views(chunks@);
    let mut i: usize = 0;
    assert(ranked.take(0) == Seq::<RankedChunkView>::empty());
    while i < chunks.len()
        invariant
            i <= chunks.len(),
            ranked == ranked_views(chunks@),
            context@ == context_of(ranked.take(i as int), document_views(documents@)),
        decreases chunks.len() - i,
    {
        assert(ranked.take(i as int + 1).drop_last() == ranked.take(i as int));
        assert(ranked.take(i as int + 1).last() == chunks@[i as int]@);
        match find_owner(documents, &chunks[i].chunk.id) {
            Some(d) => {
                let ghost before = context@;
                context.append("Document: ");
                context.append(documents[d].filename.as_str());
                context.append("\nContent: ");
                context.append(chunks[i].chunk.content.as_str());
                context.append("\n\n");
                assert(context@ == before + context_entry(
                    documents@[d as int]@.filename,
                    chunks@[i as int]@.chunk.content,
                ));
            },
            None => {},
        }
        i += 1;
    }
    assert(ranked.take(i as int) == ranked);
    context
}

/// The prompt for a question with its context.
pub fn build_prompt(query: &str, context: &str) -> (prompt: String)
    ensures
        prompt@ == prompt_of(query@, context@),
{
    let mut prompt = String::new();
    prompt.append(PROMPT_HEAD);
    prompt.append(context);
    prompt.append(PROMPT_QUESTION);
    prompt.append(query);
    prompt.append(PROMPT_TAIL);
    assert(prompt@ == PROMPT_HEAD@ + context@ + PROMPT_QUESTION@ + query@ + PROMPT_TAIL@);
    prompt
}

/// The request that carries a prompt to the generation service: one message
/// of one piece, with the sampling settings of the library.
pub fn build_request(prompt: String) -> (request: GeminiRequest)
    ensures
        request.contents@.len() == 1,
        request.contents@[0].parts@.len() == 1,
        request.contents@[0].parts@[0].text@ == prompt@,
        request.generation_config == Some(
            GeminiGenerationConfig {
                temperature_hundredths: TEMPERATURE_HUNDREDTHS,
                max_output_tokens: MAX_OUTPUT_TOKENS,
            },
        ),
{
    let mut parts: Vec<GeminiPart> = Vec::new();
    parts.push(GeminiPart { text: prompt });
    let mut contents: Vec<GeminiContent> = Vec::new();
    contents.push(GeminiContent { parts });
    GeminiRequest {
        contents,
        generation_config: Some(
            GeminiGenerationConfig {
                temperature_hundredths: TEMPERATURE_HUNDREDTHS,
                max_output_tokens: MAX_OUTPUT_TOKENS,
            },
        ),
    }
}

/// The address to which a request goes, for the given key.
pub fn request_url(api_key: &str) -> (url: String)
    ensures
        url@ == ENDPOINT@ + api_key@,
{
    let mut url = String::new();
    url.append(ENDPOINT);
    url.append(api_key);
    assert(url@ == ENDPOINT@ + api_key@);
    url
}

/// The answer that a response of the service holds: see `answer_of`.
pub fn extract_answer(response: &GeminiResponse) -> (answer: String)
    ensures
        answer@ == answer_of(*response),
{
    if response.candidates.len() > 0 && response.candidates[0].content.parts.len() > 0 {
        response.candidates[0].content.parts[0].text.clone()
    } else {
        NO_ANSWER.to_string()
    }
}

} // verus!
