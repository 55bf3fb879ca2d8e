//! The chat command: checking the question, the events streamed to the
//! window, the references stored with an answer and the session titles.

use vstd::prelude::*;

use crate::llm::{spec_stop_reason_str, StopReason};
use crate::text::{chars_of, string_of, trim, trim_str};

verus! {

/// Event carrying one streamed piece of the answer.
pub const CHAT_TOKEN_EVENT: &'static str = "chat-token";

/// Event sent when the answer is complete.
pub const CHAT_STREAM_END_EVENT: &'static str = "chat-stream-end";

/// Refusal of an empty question.
pub const EMPTY_MESSAGE_ERROR: &'static str = "Message must not be empty";

/// Shown when the embedding model could not be loaded.
pub const EMBEDDINGS_UNAVAILABLE: &'static str = "Embedding engine not available (missing ONNX/tokenizer resources)";

/// Shown when the legal vector database could not be opened.
pub const VECTOR_DB_UNAVAILABLE: &'static str = "Legal vector DB not available (resources/lexuz.db)";

/// Title of a session whose first question is blank.
pub const NEW_CHAT_TITLE: &'static str = "New chat";

/// How many articles are retrieved for a question.
pub const RETRIEVE_TOP_K: usize = 5;

/// Longest excerpt of an article kept with an answer, in characters.
pub const EXCERPT_CHARS: usize = 400;

/// Longest session title, in characters.
pub const TITLE_CHARS: usize = 80;

/// One streamed piece of the answer.
pub struct ChatTokenEvent {
    pub token: String,
}

/// The end of a streamed answer.
pub struct ChatStreamEndEvent {
    pub stop_reason: String,
}

/// The question as it is answered and stored: without surrounding
/// whitespace; a blank question is refused.
pub fn prepare_chat_message(message: &str) -> (r: Result<String, String>)
    ensures
        trim(message@).len() == 0 ==> (r matches Err(e) && e@ == EMPTY_MESSAGE_ERROR@),
        trim(message@).len() > 0 ==> (r matches Ok(m) && m@ == trim(message@)),
{
    let t = trim_str(message);
    if t.len() == 0 {
        return Err(string_of(&chars_of(EMPTY_MESSAGE_ERROR)));
    }
    Ok(string_of(&t))
}

/// The event for one streamed piece.
pub fn token_event(piece: &str) -> (r: ChatTokenEvent)
    ensures
        r.token@ == piece@,
{
    ChatTokenEvent { token: string_of(&chars_of(piece)) }
}

/// The event that ends the stream.
pub fn stream_end_event(stop: StopReason) -> (r: ChatStreamEndEvent)
    ensures
        r.stop_reason@ == spec_stop_reason_str(stop),
{
    ChatStreamEndEvent { stop_reason: string_of(&chars_of(stop.as_str())) }
}

fn prefix_chars(s: &str, n: usize) -> (r: Vec<char>)
    ensures
        r@ == s@.take(if s@.len() < n {
            s@.len() as int
        } else {
            n as int
        }),
{
    let v = chars_of(s);
    let k = if v.len() < n {
        v.len()
    } else {
        n
    };
    let mut out: Vec<char> = Vec::new();
    let mut i: usize = 0;
    while i < k
        invariant
            i <= k,
            k <= v@.len(),
            v@ == s@,
            out@ == v@.take(i as int),
        decreases k - i,
    {
        out.push(v[i]);
        assert(v@.take(i + 1) =~= v@.take(i as int).push(v@[i as int]));
        i = i + 1;
    }
    out
}

/// The excerpt of an article stored with an answer: its first 400 characters.
pub fn reference_excerpt(text: &str) -> (r: String)
    ensures
        r@ == text@.take(if text@.len() < EXCERPT_CHARS {
            text@.len() as int
        } else {
            EXCERPT_CHARS as int
        }),
{
    string_of(&prefix_chars(text, EXCERPT_CHARS))
}

/// The title of a new session: the first 80 characters of the question, or
/// `"New chat"` when those are blank.
pub open spec fn spec_session_title(hint: Seq<char>) -> Seq<char> {
    let head = hint.take(if hint.len() < TITLE_CHARS {
        hint.len() as int
    } else {
        TITLE_CHARS as int
    });
    if trim(head).len() == 0 {
        NEW_CHAT_TITLE@
    } else {
        head
    }
}

/// The title of a new session started by `title_hint`.
pub fn session_title(title_hint: &str) -> (r: String)
    ensures
        r@ == spec_session_title(title_hint@),
{
    let head = prefix_chars(title_hint, TITLE_CHARS);
    let t = crate::text::trim_chars(&head);
    if t.len() == 0 {
        return string_of(&chars_of(NEW_CHAT_TITLE));
    }
    string_of(&head)
}

/// When making the model ready failed: the configured model to load and
/// retry with, if the engine has never been given a path.
pub fn fallback_model_path(settings_model_path: &Option<String>, engine_has_path: bool) -> (r: Option<String>)
    ensures
        engine_has_path ==> r is None,
        !engine_has_path ==> r.deep_view() == settings_model_path.deep_view(),
{
    if engine_has_path {
        return None;
    }
    match settings_model_path {
        Some(p) => Some(string_of(&chars_of(p))),
        None => None,
    }
}

} // verus!
