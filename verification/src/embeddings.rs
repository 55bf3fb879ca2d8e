//! The integer side of the e5 embedding model: its dimensions, its input
//! text, the fixed-length token arrays it takes and the check of the shape it
//! returns.  Tokenizing, inference and pooling are the caller's part.

use vstd::prelude::*;

use crate::text::{chars_of, decimal, extend_str, push_decimal, string_of};

verus! {

/// Default number of tokens per input.
pub const DEFAULT_MAX_LEN: usize = 256;

/// Width of one embedding.
pub const EMBEDDING_DIM: usize = 384;

/// Prefix of a stored passage.
pub const PASSAGE_PREFIX: &'static str = "passage: ";

/// Prefix of a search query.
pub const QUERY_PREFIX: &'static str = "query: ";

/// Smallest token length the tokenizer is configured with.
pub const MIN_MAX_LEN: usize = 8;

pub fn embedding_dim() -> (r: usize)
    ensures
        r == EMBEDDING_DIM,
{
    EMBEDDING_DIM
}

pub fn default_max_len() -> (r: usize)
    ensures
        r == DEFAULT_MAX_LEN,
{
    DEFAULT_MAX_LEN
}

/// Errors of the embedding engine.
pub enum EmbeddingError {
    NotReady(String),
    Tokenizer(String),
    Inference(String),
}

/// The user-facing text of an embedding error.
pub open spec fn spec_embedding_error_message(e: EmbeddingError) -> Seq<char> {
    match e {
        EmbeddingError::NotReady(s) => "Embedding model not loaded: "@ + s@,
        EmbeddingError::Tokenizer(s) => "Tokenizer error: "@ + s@,
        EmbeddingError::Inference(s) => "ONNX inference error: "@ + s@,
    }
}

impl EmbeddingError {
    /// The text of the error, as shown to the user.
    pub fn message(&self) -> (r: String)
        ensures
            r@ == spec_embedding_error_message(*self),
    {
        let mut v: Vec<char> = Vec::new();
        match self {
            EmbeddingError::NotReady(s) => {
                extend_str(&mut v, "Embedding model not loaded: ");
                extend_str(&mut v, s);
            },
            EmbeddingError::Tokenizer(s) => {
                extend_str(&mut v, "Tokenizer error: ");
                extend_str(&mut v, s);
            },
            EmbeddingError::Inference(s) => {
                extend_str(&mut v, "ONNX inference error: ");
                extend_str(&mut v, s);
            },
        }
        string_of(&v)
    }
}

/// Checks that the model and tokenizer files exist before loading; the
/// displays of their paths go into the message.
pub fn check_model_files(onnx: &str, onnx_exists: bool, tokenizer: &str, tokenizer_exists: bool) -> (r: Result<
    (),
    EmbeddingError,
>)
    ensures
        !onnx_exists ==> (r matches Err(EmbeddingError::NotReady(m)) && m@ == "missing ONNX model at "@
            + onnx@),
        onnx_exists && !tokenizer_exists ==> (r matches Err(EmbeddingError::NotReady(m)) && m@
            == "missing tokenizer.json at "@ + tokenizer@),
        onnx_exists && tokenizer_exists ==> r is Ok,
{
    let mut v: Vec<char> = Vec::new();
    if !onnx_exists {
        extend_str(&mut v, "missing ONNX model at ");
        extend_str(&mut v, onnx);
        return Err(EmbeddingError::NotReady(string_of(&v)));
    }
    if !tokenizer_exists {
        extend_str(&mut v, "missing tokenizer.json at ");
        extend_str(&mut v, tokenizer);
        return Err(EmbeddingError::NotReady(string_of(&v)));
    }
    Ok(())
}

/// The token length the engine works with: at least 8.
pub fn effective_max_length(max_length: usize) -> (r: usize)
    ensures
        r == if max_length < MIN_MAX_LEN {
            MIN_MAX_LEN
        } else {
            max_length
        },
{
    if max_length < MIN_MAX_LEN {
        MIN_MAX_LEN
    } else {
        max_length
    }
}

/// The text handed to the tokenizer: the e5 prefix, then the text.
pub fn embedding_input(prefix: &str, text: &str) -> (r: String)
    ensures
        r@ == prefix@ + text@,
{
    let mut v: Vec<char> = Vec::new();
    extend_str(&mut v, prefix);
    extend_str(&mut v, text);
    string_of(&v)
}

/// `v` cut or padded with zeros to exactly `len` entries (`Vec::resize`).
pub open spec fn spec_fit(v: Seq<i64>, len: int) -> Seq<i64> {
    Seq::new(
        len as nat,
        |i: int|
            if i < v.len() {
                v[i]
            } else {
                0i64
            },
    )
}

/// Token ids or attention mask brought to the fixed model length.
pub fn fit_to_length(v: &Vec<i64>, len: usize) -> (r: Vec<i64>)
    ensures
        r@ == spec_fit(v@, len as int),
{
    let mut out: Vec<i64> = Vec::new();
    let mut i: usize = 0;
    while i < len
        invariant
            i <= len,
            out@ == spec_fit(v@, len as int).take(i as int),
        decreases len - i,
    {
        let x: i64 = if i < v.len() {
            v[i]
        } else {
            0
        };
        out.push(x);
        assert(out@ =~= spec_fit(v@, len as int).take(i + 1));
        i = i + 1;
    }
    assert(out@ =~= spec_fit(v@, len as int));
    out
}

/// The all-zero token type ids of a single-sequence input.
pub fn token_type_ids(len: usize) -> (r: Vec<i64>)
    ensures
        r@ == Seq::new(len as nat, |i: int| 0i64),
{
    let mut out: Vec<i64> = Vec::new();
    let mut i: usize = 0;
    while i < len
        invariant
            i <= len,
            out@ == Seq::new(i as nat, |k: int| 0i64),
        decreases len - i,
    {
        out.push(0);
        assert(out@ =~= Seq::new((i + 1) as nat, |k: int| 0i64));
        i = i + 1;
    }
    out
}

/// Decimal rendering of a signed integer.
pub open spec fn signed_decimal(x: int) -> Seq<char> {
    if x < 0 {
        seq!['-'] + decimal((-x) as nat)
    } else {
        decimal(x as nat)
    }
}

/// The rendering of a list of numbers as `Debug` prints it: `[a, b, c]`.
pub open spec fn debug_list(v: Seq<i64>) -> Seq<char>
    decreases v.len(),
{
    if v.len() == 0 {
        seq!['[', ']']
    } else {
        seq!['['] + list_body(v) + seq![']']
    }
}

/// The numbers of `v` separated by `", "`.
pub open spec fn list_body(v: Seq<i64>) -> Seq<char>
    decreases v.len(),
{
    if v.len() == 0 {
        seq![]
    } else if v.len() == 1 {
        signed_decimal(v[0] as int)
    } else {
        list_body(v.drop_last()) + seq![',', ' '] + signed_decimal(v.last() as int)
    }
}

fn push_signed(out: &mut Vec<char>, x: i64)
    ensures
        final(out)@ == old(out)@ + signed_decimal(x as int),
{
    if x < 0 {
        out.push('-');
        let m: u64 = if x == -9223372036854775808i64 {
            9223372036854775808u64
        } else {
            (-x) as u64
        };
        push_decimal(out, m);
    } else {
        push_decimal(out, x as u64);
    }
}

fn debug_shape(v: &Vec<i64>) -> (r: Vec<char>)
    ensures
        r@ == debug_list(v@),
{
    let mut out: Vec<char> = Vec::new();
    out.push('[');
    let mut i: usize = 0;
    while i < v.len()
        invariant
            i <= v@.len(),
            out@ == seq!['['] + list_body(v@.take(i as int)),
        decreases v@.len() - i,
    {
        assert(v@.take(i + 1).drop_last() =~= v@.take(i as int));
        if i > 0 {
            out.push(',');
            out.push(' ');
        }
        push_signed(&mut out, v[i]);
        assert(out@ =~= seq!['['] + list_body(v@.take(i + 1)));
        i = i + 1;
    }
    assert(v@.take(v@.len() as int) =~= v@);
    out.push(']');
    out
}

/// Checks the shape `[rows, seq, dim]` of `last_hidden_state`: three
/// dimensions with `dim == 384`.  Returns the three dimensions as sizes.
pub fn check_hidden_shape(shape: &Vec<i64>) -> (r: Result<(usize, usize, usize), EmbeddingError>)
    ensures
        shape@.len() == 3 && shape@[2] == EMBEDDING_DIM ==> (r matches Ok(d) && d.0 == shape@[0] as usize
            && d.1 == shape@[1] as usize && d.2 == EMBEDDING_DIM),
        !(shape@.len() == 3 && shape@[2] == EMBEDDING_DIM) ==> (r matches Err(EmbeddingError::Inference(m))
            && m@ == "unexpected last_hidden_state shape: "@ + debug_list(shape@)),
{
    if shape.len() != 3 || shape[2] != 384 {
        let mut m: Vec<char> = Vec::new();
        extend_str(&mut m, "unexpected last_hidden_state shape: ");
        let d = debug_shape(shape);
        crate::text::extend_chars(&mut m, &d);
        return Err(EmbeddingError::Inference(string_of(&m)));
    }
    Ok((shape[0] as usize, shape[1] as usize, EMBEDDING_DIM))
}

} // verus!
