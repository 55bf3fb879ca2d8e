//! Decisions around the local language model: stop reasons and errors, chat
//! formatting, the prompt prefill plan, the token-by-token generation loop and
//! the load / idle-unload bookkeeping of the engine.  Running the model itself
//! is the caller's part: it performs what these functions decide.

use vstd::prelude::*;

use crate::text::{chars_of, extend_str, string_of};

verus! {

/// Shortest repeated block the repetition guard looks for.
pub const REPETITION_MIN_CHARS: usize = 40;

/// How many consecutive copies of a block stop the generation.
pub const REPETITION_TIMES: usize = 3;

/// Longest repeated block the repetition guard looks for.
pub const REPETITION_MAX_UNIT: usize = 240;

/// Most tokens handed to the model in one decode call.
pub const N_BATCH: u32 = 512;

/// Answer when the prompt does not fit the context window.
pub const PROMPT_TOO_LONG_MSG: &'static str = "Savol yoki topilgan huquqiy matn juda uzun, qisqartiring";

/// Loaded weights are dropped after this many idle seconds.
pub const IDLE_UNLOAD_AFTER_SECS: u64 = 600;

/// The idle watcher looks at the engine every this many seconds.
pub const IDLE_WATCH_INTERVAL_SECS: u64 = 30;

/// Why a generation ended.
#[derive(Debug, Clone, Copy, PartialEq, Eq, Structural)]
pub enum StopReason {
    EogToken,
    MaxTokens,
    RepetitionGuard,
}

/// The machine-readable name of a stop reason.
pub open spec fn spec_stop_reason_str(s: StopReason) -> Seq<char> {
    match s {
        StopReason::EogToken => "eog_token"@,
        StopReason::MaxTokens => "max_tokens"@,
        StopReason::RepetitionGuard => "repetition_guard"@,
    }
}

impl StopReason {
    pub fn as_str(self) -> (r: &'static str)
        ensures
            r@ == spec_stop_reason_str(self),
    {
        match self {
            StopReason::EogToken => "eog_token",
            StopReason::MaxTokens => "max_tokens",
            StopReason::RepetitionGuard => "repetition_guard",
        }
    }
}

/// Errors of the language-model engine.
pub enum LlmError {
    NotReady(String),
    InvalidPath(String),
    Load(String),
    Generate(String),
}

/// The user-facing text of an engine error.
pub open spec fn spec_llm_error_message(e: LlmError) -> Seq<char> {
    match e {
        LlmError::NotReady(s) => "LLM not initialized: "@ + s@,
        LlmError::InvalidPath(s) => "Model path missing or invalid: "@ + s@,
        LlmError::Load(s) => "LLM load failed: "@ + s@,
        LlmError::Generate(s) => "Generation failed: "@ + s@,
    }
}

impl LlmError {
    /// The text of the error, as shown to the user.
    pub fn message(&self) -> (r: String)
        ensures
            r@ == spec_llm_error_message(*self),
    {
        let mut v: Vec<char> = Vec::new();
        match self {
            LlmError::NotReady(s) => {
                extend_str(&mut v, "LLM not initialized: ");
                extend_str(&mut v, s);
            },
            LlmError::InvalidPath(s) => {
                extend_str(&mut v, "Model path missing or invalid: ");
                extend_str(&mut v, s);
            },
            LlmError::Load(s) => {
                extend_str(&mut v, "LLM load failed: ");
                extend_str(&mut v, s);
            },
            LlmError::Generate(s) => {
                extend_str(&mut v, "Generation failed: ");
                extend_str(&mut v, s);
            },
        }
        string_of(&v)
    }
}

/// Context size, thread count and answer length of the engine.
#[derive(Debug, Clone, Copy)]
pub struct LlmConfig {
    pub n_ctx: u32,
    pub n_threads: i32,
    pub max_tokens: u32,
}

impl Default for LlmConfig {
    fn default() -> (r: Self)
        ensures
            r.n_ctx == 4096,
            r.max_tokens == 1024,
            r.n_threads >= 1,
            exists|cpus: int| cpus >= 1 && r.n_threads == crate::paths::spec_thread_count(cpus),
    {
        LlmConfig { n_ctx: 4096, n_threads: crate::paths::default_thread_count(), max_tokens: 1024 }
    }
}

/// Where the chat template of a loaded model came from.
#[derive(Debug, Clone, Copy, PartialEq, Eq, Structural)]
pub enum TemplateSource {
    GgufEmbedded,
    ExplicitQwenChatMl,
}

/// The label of a template source, as reported in the model status.
pub open spec fn spec_template_label(t: TemplateSource) -> Seq<char> {
    match t {
        TemplateSource::GgufEmbedded => "gguf_embedded_metadata"@,
        TemplateSource::ExplicitQwenChatMl => "explicit_qwen25_chatml"@,
    }
}

impl TemplateSource {
    pub fn label(&self) -> (r: &'static str)
        ensures
            r@ == spec_template_label(*self),
    {
        match self {
            TemplateSource::GgufEmbedded => "gguf_embedded_metadata",
            TemplateSource::ExplicitQwenChatMl => "explicit_qwen25_chatml",
        }
    }
}

/// Qwen2.5-Instruct ChatML for one system and one user turn, ending with the
/// opening of the assistant turn.
pub open spec fn spec_qwen_chatml(system: Seq<char>, user: Seq<char>) -> Seq<char> {
    "<|im_start|>system\n"@ + system + "<|im_end|>\n<|im_start|>user\n"@ + user
        + "<|im_end|>\n<|im_start|>assistant\n"@
}

/// Explicit Qwen2.5-Instruct ChatML, used when the model carries no template.
pub fn format_qwen_chatml(system: &str, user: &str) -> (r: String)
    ensures
        r@ == spec_qwen_chatml(system@, user@),
{
    let mut v: Vec<char> = Vec::new();
    extend_str(&mut v, "<|im_start|>system\n");
    extend_str(&mut v, system);
    extend_str(&mut v, "<|im_end|>\n<|im_start|>user\n");
    extend_str(&mut v, user);
    extend_str(&mut v, "<|im_end|>\n<|im_start|>assistant\n");
    assert(v@ =~= spec_qwen_chatml(system@, user@));
    string_of(&v)
}

/// The prompt for one system and one user turn: with the explicit ChatML
/// template it is built here; with the model's own template (`None`) the
/// caller applies that template.
pub fn chat_prompt(source: TemplateSource, system: &str, user: &str) -> (r: Option<String>)
    ensures
        source == TemplateSource::GgufEmbedded ==> r is None,
        source == TemplateSource::ExplicitQwenChatMl ==> (r matches Some(p) && p@ == spec_qwen_chatml(
            system@,
            user@,
        )),
{
    match source {
        TemplateSource::GgufEmbedded => None,
        TemplateSource::ExplicitQwenChatMl => Some(format_qwen_chatml(system, user)),
    }
}

/// Most tokens to generate: the requested number, else the configured one.
pub fn answer_budget(requested: Option<u32>, configured: u32) -> (r: usize)
    ensures
        r == match requested {
            Some(n) => n,
            None => configured,
        },
{
    match requested {
        Some(n) => n as usize,
        None => configured as usize,
    }
}

// ---------------------------------------------------------------------------
// Prefill: feeding the prompt to the model in batches.
// ---------------------------------------------------------------------------

/// Number of decode calls for `n` prompt tokens at `b` tokens per call:
/// `n / b` rounded up (none for an empty prompt or an empty batch).
pub open spec fn spec_decode_chunks(n: int, b: int) -> int {
    if n <= 0 || b <= 0 {
        0
    } else {
        n / b + if n % b == 0 {
            0int
        } else {
            1int
        }
    }
}

/// How many decode calls a prompt of `n_prompt` tokens needs at `n_batch`.
pub fn prompt_decode_chunks(n_prompt: usize, n_batch: usize) -> (r: usize)
    ensures
        r == spec_decode_chunks(n_prompt as int, n_batch as int),
{
    if n_prompt == 0 || n_batch == 0 {
        return 0;
    }
    let q = n_prompt / n_batch;
    if n_prompt % n_batch == 0 {
        q
    } else {
        assert(q < n_prompt) by (nonlinear_arith)
            requires
                q == n_prompt / n_batch,
                n_batch >= 1,
                n_prompt % n_batch != 0,
        ;
        q + 1
    }
}

/// Law: the decode calls cover the prompt and the last one is not empty:
/// `(r - 1) * b < n <= r * b` for a non-empty prompt and batch.
pub proof fn law_decode_chunks_cover(n: int, b: int)
    requires
        n > 0,
        b > 0,
    ensures
        (spec_decode_chunks(n, b) - 1) * b < n,
        n <= spec_decode_chunks(n, b) * b,
{
    let q = n / b;
    let r = n % b;
    vstd::arithmetic::div_mod::lemma_fundamental_div_mod(n, b);
    assert(n == b * q + r);
    assert(0 <= r < b);
    if r == 0 {
        assert((q - 1) * b < n) by (nonlinear_arith)
            requires
                n == b * q,
                b > 0,
        ;
        assert(n <= q * b) by (nonlinear_arith)
            requires
                n == b * q,
        ;
    } else {
        assert(q * b < n) by (nonlinear_arith)
            requires
                n == b * q + r,
                r > 0,
        ;
        assert(n <= (q + 1) * b) by (nonlinear_arith)
            requires
                n == b * q + r,
                r < b,
        ;
    }
}

/// Position of a prompt token in the key/value cache (0 where the index does
/// not fit an `i32`).
pub open spec fn spec_token_pos(index: int) -> i32 {
    if 0 <= index <= i32::MAX {
        index as i32
    } else {
        0
    }
}

/// One prompt token of a decode batch.
#[derive(Debug, Clone, Copy)]
pub struct PrefillToken {
    /// Index of the token in the prompt.
    pub index: usize,
    /// Its position in the key/value cache.
    pub pos: i32,
    /// Whether logits are requested for it (only for the last prompt token).
    pub logits: bool,
}

fn token_pos(index: usize) -> (p: i32)
    ensures
        p == spec_token_pos(index as int),
{
    if index <= 2147483647usize {
        index as i32
    } else {
        0
    }
}

/// The batches in which `n_prompt` tokens are fed to the model: batch `i`
/// holds the tokens `i * n_batch ..` up to `n_batch` of them, every batch
/// but the last is full, and only the last token asks for logits.
pub fn prefill_plan(n_prompt: usize, n_batch: usize) -> (r: Vec<Vec<PrefillToken>>)
    requires
        n_batch > 0,
    ensures
        r@.len() == spec_decode_chunks(n_prompt as int, n_batch as int),
        forall|i: int| 0 <= i < r@.len() ==> 0 < #[trigger] r@[i]@.len() <= n_batch,
        forall|i: int| 0 <= i < r@.len() - 1 ==> #[trigger] r@[i]@.len() == n_batch,
        r@.len() > 0 ==> (r@.len() - 1) * n_batch + r@.last()@.len() == n_prompt,
        forall|i: int, j: int|
            0 <= i < r@.len() && 0 <= j < r@[i]@.len() ==> {
                let t = #[trigger] r@[i]@[j];
                &&& t.index == i * n_batch + j
                &&& t.pos == spec_token_pos(i * n_batch + j)
                &&& t.logits == (i * n_batch + j == n_prompt - 1)
            },
{
    let count = prompt_decode_chunks(n_prompt, n_batch);
    let mut out: Vec<Vec<PrefillToken>> = Vec::new();
    if count == 0 {
        return out;
    }
    proof {
        law_decode_chunks_cover(n_prompt as int, n_batch as int);
    }
    let mut i: usize = 0;
    let mut lo: usize = 0;
    while i < count
        invariant
            n_batch > 0,
            n_prompt > 0,
            count == spec_decode_chunks(n_prompt as int, n_batch as int),
            (count - 1) * n_batch < n_prompt,
            n_prompt <= count * n_batch,
            i <= count,
            out@.len() == i,
            i < count ==> lo == i * n_batch,
            forall|k: int| 0 <= k < i ==> 0 < #[trigger] out@[k]@.len() <= n_batch,
            forall|k: int| 0 <= k < i && k < count - 1 ==> #[trigger] out@[k]@.len() == n_batch,
            i == count ==> (count - 1) * n_batch + out@.last()@.len() == n_prompt,
            forall|k: int, j: int|
                0 <= k < i && 0 <= j < out@[k]@.len() ==> {
                    let t = #[trigger] out@[k]@[j];
                    &&& t.index == k * n_batch + j
                    &&& t.pos == spec_token_pos(k * n_batch + j)
                    &&& t.logits == (k * n_batch + j == n_prompt - 1)
                },
        decreases count - i,
    {
        assert(lo < n_prompt) by (nonlinear_arith)
            requires
                lo == i * n_batch,
                i <= count - 1,
                (count - 1) * n_batch < n_prompt,
                n_batch > 0,
        ;
        let room = n_prompt - lo;
        let len: usize = if room < n_batch {
            room
        } else {
            n_batch
        };
        let mut batch: Vec<PrefillToken> = Vec::new();
        let mut j: usize = 0;
        while j < len
            invariant
                j <= len,
                len <= n_batch,
                lo + len <= n_prompt,
                batch@.len() == j,
                forall|q: int|
                    0 <= q < j ==> {
                        let t = #[trigger] batch@[q];
                        &&& t.index == lo + q
                        &&& t.pos == spec_token_pos(lo + q)
                        &&& t.logits == (lo + q == n_prompt - 1)
                    },
            decreases len - j,
        {
            let index = lo + j;
            batch.push(PrefillToken { index, pos: token_pos(index), logits: index == n_prompt - 1 });
            j = j + 1;
        }
        proof {
            if i + 1 < count {
                assert(len == n_batch) by (nonlinear_arith)
                    requires
                        lo == i * n_batch,
                        i + 1 <= count - 1,
                        (count - 1) * n_batch < n_prompt,
                        room == n_prompt - lo,
                        len == if room < n_batch {
                            room
                        } else {
                            n_batch
                        },
                ;
            } else {
                assert(lo + len == n_prompt) by (nonlinear_arith)
                    requires
                        lo == i * n_batch,
                        i == count - 1,
                        n_prompt <= count * n_batch,
                        room == n_prompt - lo,
                        len == if room < n_batch {
                            room
                        } else {
                            n_batch
                        },
                ;
            }
            assert(lo + n_batch == (i + 1) * n_batch) by (nonlinear_arith)
                requires
                    lo == i * n_batch,
            ;
        }
        let ghost before = out@;
        out.push(batch);
        proof {
            assert forall|k: int, q: int|
                0 <= k < i + 1 && 0 <= q < out@[k]@.len() implies {
                    let t = #[trigger] out@[k]@[q];
                    &&& t.index == k * n_batch + q
                    &&& t.pos == spec_token_pos(k * n_batch + q)
                    &&& t.logits == (k * n_batch + q == n_prompt - 1)
                } by {
                if k < i {
                    assert(out@[k] == before[k]);
                } else {
                    assert(k * n_batch == lo);
                }
            }
        }
        i = i + 1;
        if i < count {
            lo = lo + n_batch;
        }
    }
    out
}

// ---------------------------------------------------------------------------
// The repetition guard.
// ---------------------------------------------------------------------------

/// `s` ends with three consecutive copies of its last `u` characters.
pub open spec fn repeats_at_end(s: Seq<char>, u: int) -> bool {
    let n = s.len() as int;
    let unit = s.subrange(n - u, n);
    s.subrange(n - 3 * u, n) == unit + unit + unit
}

/// The longest block length the guard tries on a text of `n` characters.
pub open spec fn max_repetition_unit(n: int) -> int {
    if n / 3 < 240 {
        n / 3
    } else {
        240
    }
}

/// The generated text ends with a block of 40 to 240 characters (and at most
/// a third of the text) repeated three times in a row.
pub open spec fn spec_repetition_guard(s: Seq<char>) -> bool {
    &&& s.len() >= 120
    &&& exists|u: int| 40 <= u <= max_repetition_unit(s.len() as int) && #[trigger] repeats_at_end(s, u)
}

/// Position `j` of the three last blocks of length `u` agree.
pub open spec fn tail_agrees(s: Seq<char>, u: int, j: int) -> bool {
    let n = s.len() as int;
    s[n - 3 * u + j] == s[n - u + j] && s[n - 2 * u + j] == s[n - u + j]
}

fn tail_repeats(c: &Vec<char>, u: usize) -> (r: bool)
    requires
        0 < u,
        3 * u <= c@.len(),
    ensures
        r == repeats_at_end(c@, u as int),
{
    let n = c.len();
    let ghost s = c@;
    let ghost unit = s.subrange(n - u, n as int);
    let ghost w = s.subrange(n - 3 * u, n as int);
    let mut k: usize = 0;
    while k < u
        invariant
            k <= u,
            n == c@.len(),
            s == c@,
            3 * u <= n,
            unit == s.subrange(n - u, n as int),
            w == s.subrange(n - 3 * u, n as int),
            forall|j: int| 0 <= j < k ==> #[trigger] tail_agrees(s, u as int, j),
        decreases u - k,
    {
        if c[n - 3 * u + k] != c[n - u + k] || c[n - 2 * u + k] != c[n - u + k] {
            proof {
                if w == unit + unit + unit {
                    assert(w[k as int] == (unit + unit + unit)[k as int]);
                    assert(w[u + k] == (unit + unit + unit)[u + k]);
                }
            }
            return false;
        }
        k = k + 1;
    }
    assert(w =~= unit + unit + unit) by {
        assert forall|j: int| 0 <= j < 3 * u implies w[j] == (unit + unit + unit)[j] by {
            if j < u {
                assert(tail_agrees(s, u as int, j));
            } else if j < 2 * u {
                assert(tail_agrees(s, u as int, j - u));
            } else {
                assert(tail_agrees(s, u as int, j - 2 * u));
            }
        }
    }
    true
}

/// Whether generation should stop because the text has started to loop.
pub fn repetition_guard_triggered(text: &str) -> (r: bool)
    ensures
        r == spec_repetition_guard(text@),
{
    let chars = chars_of(text);
    let n = chars.len();
    if n < REPETITION_MIN_CHARS * REPETITION_TIMES {
        return false;
    }
    let third = n / REPETITION_TIMES;
    let max_unit = if third < REPETITION_MAX_UNIT {
        third
    } else {
        REPETITION_MAX_UNIT
    };
    let mut u: usize = REPETITION_MIN_CHARS;
    while u <= max_unit
        invariant
            40 <= u <= max_unit + 1,
            max_unit == max_repetition_unit(n as int),
            max_unit <= 240,
            3 * max_unit <= n,
            n == chars@.len(),
            chars@ == text@,
            n >= 120,
            forall|v: int| 40 <= v < u ==> !#[trigger] repeats_at_end(chars@, v),
        decreases max_unit + 1 - u,
    {
        if tail_repeats(&chars, u) {
            assert(repeats_at_end(chars@, u as int));
            return true;
        }
        u = u + 1;
    }
    false
}

// ---------------------------------------------------------------------------
// The generation loop.
// ---------------------------------------------------------------------------

/// Where the first generated token goes in the cache: the prompt length, or
/// `i32::MAX` when that does not fit.
pub open spec fn spec_first_cur(n_prompt: int) -> i32 {
    if n_prompt <= i32::MAX {
        n_prompt as i32
    } else {
        i32::MAX
    }
}

/// State of one generation, between the model's sampling steps.
pub struct Generation {
    /// Cache position of the next token.
    pub n_cur: i32,
    /// Tokens sampled so far.
    pub steps: usize,
    /// Most tokens to sample.
    pub max_tokens: usize,
    /// The context window, in tokens.
    pub n_ctx_limit: usize,
    /// The text generated so far.
    pub generated: String,
}

impl Generation {
    /// A generation after a prefill of `n_prompt` tokens.
    pub fn start(n_prompt: usize, max_tokens: usize, n_ctx_limit: usize) -> (r: Self)
        ensures
            r.n_cur == spec_first_cur(n_prompt as int),
            r.steps == 0,
            r.max_tokens == max_tokens,
            r.n_ctx_limit == n_ctx_limit,
            r.generated@ == Seq::<char>::empty(),
    {
        let n_cur: i32 = if n_prompt <= 2147483647usize {
            n_prompt as i32
        } else {
            2147483647i32
        };
        Generation { n_cur, steps: 0, max_tokens, n_ctx_limit, generated: String::new() }
    }

    /// Checked before each sampling step: the answer budget is spent or the
    /// context window is full.
    pub fn before_sample(&self) -> (r: Option<StopReason>)
        requires
            self.n_cur >= 0,
        ensures
            r == if self.steps >= self.max_tokens || self.n_cur as int >= self.n_ctx_limit {
                Some(StopReason::MaxTokens)
            } else {
                None::<StopReason>
            },
    {
        if self.steps >= self.max_tokens || (self.n_cur as usize) >= self.n_ctx_limit {
            Some(StopReason::MaxTokens)
        } else {
            None
        }
    }

    /// Takes the sampled token: an end-of-generation token stops; otherwise
    /// its text is appended, the repetition guard may stop, and else the
    /// generation moves one position on.
    pub fn accept_token(&mut self, is_eog: bool, piece: &str) -> (r: Option<StopReason>)
        requires
            old(self).steps < old(self).max_tokens,
            0 <= old(self).n_cur,
            (old(self).n_cur as int) < old(self).n_ctx_limit,
            old(self).n_cur < i32::MAX,
        ensures
            final(self).max_tokens == old(self).max_tokens,
            final(self).n_ctx_limit == old(self).n_ctx_limit,
            is_eog ==> {
                &&& r == Some(StopReason::EogToken)
                &&& final(self).generated@ == old(self).generated@
                &&& final(self).n_cur == old(self).n_cur
                &&& final(self).steps == old(self).steps
            },
            !is_eog ==> {
                &&& final(self).generated@ == old(self).generated@ + piece@
                &&& spec_repetition_guard(final(self).generated@) ==> {
                    &&& r == Some(StopReason::RepetitionGuard)
                    &&& final(self).n_cur == old(self).n_cur
                    &&& final(self).steps == old(self).steps
                }
                &&& !spec_repetition_guard(final(self).generated@) ==> {
                    &&& r is None
                    &&& final(self).n_cur == old(self).n_cur + 1
                    &&& final(self).steps == old(self).steps + 1
                }
            },
    {
        if is_eog {
            return Some(StopReason::EogToken);
        }
        let mut v = chars_of(&self.generated);
        extend_str(&mut v, piece);
        self.generated = string_of(&v);
        if repetition_guard_triggered(&self.generated) {
            return Some(StopReason::RepetitionGuard);
        }
        self.n_cur = self.n_cur + 1;
        self.steps = self.steps + 1;
        None
    }
}

/// The context window actually used: at least one decode batch.
pub fn effective_n_ctx(n_ctx: u32) -> (r: u32)
    ensures
        r == if n_ctx < N_BATCH {
            N_BATCH
        } else {
            n_ctx
        },
{
    if n_ctx < N_BATCH {
        N_BATCH
    } else {
        n_ctx
    }
}

/// Refuses a prompt of `n_tokens` tokens that is empty or does not fit
/// `n_ctx_limit`.
pub fn check_prompt_tokens(n_tokens: usize, n_ctx_limit: usize) -> (r: Result<(), LlmError>)
    ensures
        n_tokens == 0 ==> (r matches Err(LlmError::Generate(m)) && m@ == "prompt produced zero tokens"@),
        n_tokens > 0 && n_tokens > n_ctx_limit ==> (r matches Err(LlmError::Generate(m)) && m@
            == PROMPT_TOO_LONG_MSG@),
        n_tokens > 0 && n_tokens <= n_ctx_limit ==> r is Ok,
{
    if n_tokens == 0 {
        return Err(LlmError::Generate(string_of(&chars_of("prompt produced zero tokens"))));
    }
    if n_tokens > n_ctx_limit {
        return Err(LlmError::Generate(string_of(&chars_of(PROMPT_TOO_LONG_MSG))));
    }
    Ok(())
}

// ---------------------------------------------------------------------------
// Loading, waking and idle-unloading the engine.
// ---------------------------------------------------------------------------

/// Error when no model is configured.
pub const NO_MODEL_MSG: &'static str = "No GGUF model loaded. Choose a local model in Settings.";

/// Error when a load ended without a recorded reason.
pub const LOAD_FAILED_MSG: &'static str = "Model failed to load";

/// Error when loading took longer than the wake timeout.
pub const LOAD_TIMEOUT_MSG: &'static str = "Timed out waiting for GGUF to finish loading";

/// The engine's bookkeeping; the weights themselves are held by the caller.
pub struct EngineState {
    pub loaded: bool,
    pub loading: bool,
    pub waking: bool,
    pub idle_unloaded: bool,
    pub inference_active: bool,
    pub model_path: Option<String>,
    pub last_error: Option<String>,
    pub template_source: Option<String>,
}

/// What `begin_load` decided.
#[derive(Debug, Clone, Copy, PartialEq, Eq, Structural)]
pub enum LoadStart {
    /// The file is missing; the error is recorded.
    Missing,
    /// A load is already running.
    AlreadyLoading,
    /// A load was started: the caller loads the weights in the background.
    Started,
}

/// What `begin_ensure_loaded` decided.
pub enum EnsureStart {
    /// The weights are resident.
    Ready,
    /// No model is configured.
    Failed(LlmError),
    /// Wait for the weights; start a load first when `start_load`.
    Wait { start_load: bool },
}

/// The error recorded for a missing model file.
pub open spec fn spec_missing_path_msg(path: Seq<char>) -> Seq<char> {
    "Model path does not exist: "@ + path
}

/// The engine after a request to drop the weights: unchanged while an
/// inference or a load runs; otherwise unloaded, remembering an idle unload
/// when weights were resident.
pub open spec fn spec_unload(s: EngineState) -> EngineState {
    if s.inference_active || s.loading {
        s
    } else {
        EngineState {
            loaded: false,
            loading: s.loading,
            waking: s.waking,
            idle_unloaded: s.idle_unloaded || s.loaded,
            inference_active: s.inference_active,
            model_path: s.model_path,
            last_error: s.last_error,
            template_source: s.template_source,
        }
    }
}

/// The idle watcher unloads resident weights after `IDLE_UNLOAD_AFTER_SECS`
/// without activity, unless an inference or a load runs.
pub open spec fn spec_idle_unload_due(s: EngineState, idle_secs: u64) -> bool {
    s.loaded && !s.inference_active && !s.loading && idle_secs >= IDLE_UNLOAD_AFTER_SECS
}

/// The engine after one tick of the idle watcher.
pub open spec fn spec_watch_tick(s: EngineState, idle_secs: u64) -> EngineState {
    if spec_idle_unload_due(s, idle_secs) {
        spec_unload(s)
    } else {
        s
    }
}

impl EngineState {
    /// A fresh engine with nothing loaded.
    pub fn new() -> (r: Self)
        ensures
            !r.loaded && !r.loading && !r.waking && !r.idle_unloaded && !r.inference_active,
            r.model_path is None && r.last_error is None && r.template_source is None,
    {
        EngineState {
            loaded: false,
            loading: false,
            waking: false,
            idle_unloaded: false,
            inference_active: false,
            model_path: None,
            last_error: None,
            template_source: None,
        }
    }

    /// Drops the weights unless an inference or a load is running.  Returns
    /// whether loaded weights were dropped.
    pub fn unload(&mut self) -> (dropped: bool)
        ensures
            *final(self) == spec_unload(*old(self)),
            old(self).inference_active || old(self).loading ==> !dropped && *final(self) == *old(self),
            !(old(self).inference_active || old(self).loading) ==> {
                &&& dropped == old(self).loaded
                &&& !final(self).loaded
                &&& final(self).idle_unloaded == (old(self).idle_unloaded || old(self).loaded)
                &&& final(self).loading == old(self).loading
                &&& final(self).waking == old(self).waking
                &&& final(self).inference_active == old(self).inference_active
                &&& final(self).model_path == old(self).model_path
                &&& final(self).last_error == old(self).last_error
                &&& final(self).template_source == old(self).template_source
            },
    {
        if self.inference_active || self.loading {
            return false;
        }
        let dropped = self.loaded;
        self.loaded = false;
        if dropped {
            self.idle_unloaded = true;
        }
        dropped
    }

    /// The idle watcher unloads loaded weights after `IDLE_UNLOAD_AFTER_SECS`
    /// without inference, unless the engine is busy.
    pub fn idle_unload_due(&self, idle_secs: u64) -> (r: bool)
        ensures
            r == spec_idle_unload_due(*self, idle_secs),
            r == (self.loaded && !self.inference_active && !self.loading && idle_secs
                >= IDLE_UNLOAD_AFTER_SECS),
    {
        self.loaded && !self.inference_active && !self.loading && idle_secs >= IDLE_UNLOAD_AFTER_SECS
    }

    /// One tick of the idle watcher, `idle_secs` after the last activity:
    /// unloads when due.  Returns whether weights were dropped.
    pub fn idle_watch_tick(&mut self, idle_secs: u64) -> (dropped: bool)
        ensures
            *final(self) == spec_watch_tick(*old(self), idle_secs),
            dropped == spec_idle_unload_due(*old(self), idle_secs),
    {
        if self.idle_unload_due(idle_secs) {
            self.unload()
        } else {
            false
        }
    }

    /// Starts a background load of `path` (`path_exists` tells whether the
    /// file is there).
    pub fn begin_load(&mut self, path: String, path_exists: bool) -> (r: LoadStart)
        ensures
            !path_exists ==> {
                &&& r == LoadStart::Missing
                &&& final(self).last_error matches Some(e) && e@ == spec_missing_path_msg(path@)
                &&& !final(self).waking
                &&& final(self).loading == old(self).loading
                &&& final(self).loaded == old(self).loaded
                &&& final(self).model_path == old(self).model_path
            },
            path_exists && old(self).loading ==> r == LoadStart::AlreadyLoading && *final(self)
                == *old(self),
            path_exists && !old(self).loading ==> {
                &&& r == LoadStart::Started
                &&& final(self).loading
                &&& final(self).model_path == Some(path)
                &&& final(self).loaded == old(self).loaded
                &&& final(self).waking == old(self).waking
                &&& final(self).last_error == old(self).last_error
            },
    {
        if !path_exists {
            let mut v: Vec<char> = Vec::new();
            extend_str(&mut v, "Model path does not exist: ");
            extend_str(&mut v, &path);
            self.last_error = Some(string_of(&v));
            self.waking = false;
            return LoadStart::Missing;
        }
        if self.loading {
            return LoadStart::AlreadyLoading;
        }
        self.loading = true;
        self.model_path = Some(path);
        LoadStart::Started
    }

    /// Records the end of a background load of `path`: the template in use,
    /// or the error.
    pub fn finish_load(&mut self, path: String, result: Result<TemplateSource, LlmError>)
        ensures
            !final(self).loading,
            !final(self).waking,
            final(self).inference_active == old(self).inference_active,
            match result {
                Ok(t) => {
                    &&& final(self).loaded
                    &&& !final(self).idle_unloaded
                    &&& final(self).model_path == Some(path)
                    &&& final(self).last_error is None
                    &&& final(self).template_source matches Some(l) && l@ == spec_template_label(t)
                },
                Err(e) => {
                    &&& !final(self).loaded
                    &&& final(self).idle_unloaded == old(self).idle_unloaded
                    &&& final(self).model_path == old(self).model_path
                    &&& final(self).template_source == old(self).template_source
                    &&& final(self).last_error matches Some(m) && m@ == spec_llm_error_message(e)
                },
            },
    {
        match result {
            Ok(t) => {
                self.template_source = Some(string_of(&chars_of(t.label())));
                self.model_path = Some(path);
                self.last_error = None;
                self.loaded = true;
                self.idle_unloaded = false;
            },
            Err(e) => {
                self.last_error = Some(e.message());
                self.loaded = false;
            },
        }
        self.waking = false;
        self.loading = false;
    }

    /// First step of making sure the weights are resident before inference.
    pub fn begin_ensure_loaded(&mut self) -> (r: EnsureStart)
        ensures
            final(self).loaded == old(self).loaded,
            final(self).loading == old(self).loading,
            final(self).idle_unloaded == old(self).idle_unloaded,
            final(self).inference_active == old(self).inference_active,
            final(self).model_path == old(self).model_path,
            final(self).last_error == old(self).last_error,
            final(self).template_source == old(self).template_source,
            old(self).loaded ==> (r is Ready) && !final(self).waking,
            !old(self).loaded && old(self).model_path is None ==> (r matches EnsureStart::Failed(
                LlmError::NotReady(m),
            ) && m@ == NO_MODEL_MSG@) && final(self).waking == old(self).waking,
            !old(self).loaded && old(self).model_path is Some ==> {
                &&& r matches EnsureStart::Wait { start_load } && start_load == !old(self).loading
                &&& final(self).waking == (old(self).waking || old(self).idle_unloaded)
            },
    {
        if self.loaded {
            self.waking = false;
            return EnsureStart::Ready;
        }
        if self.model_path.is_none() {
            return EnsureStart::Failed(LlmError::NotReady(string_of(&chars_of(NO_MODEL_MSG))));
        }
        if self.idle_unloaded {
            self.waking = true;
        }
        EnsureStart::Wait { start_load: !self.loading }
    }

    /// One poll while waiting for the weights: `None` keeps waiting.
    pub fn poll_ensure_loaded(&mut self, timed_out: bool) -> (r: Option<Result<(), LlmError>>)
        ensures
            final(self).loaded == old(self).loaded,
            final(self).loading == old(self).loading,
            final(self).inference_active == old(self).inference_active,
            final(self).model_path == old(self).model_path,
            final(self).last_error == old(self).last_error,
            final(self).template_source == old(self).template_source,
            timed_out ==> (r matches Some(Err(LlmError::Load(m))) && m@ == LOAD_TIMEOUT_MSG@)
                && !final(self).waking && final(self).idle_unloaded == old(self).idle_unloaded,
            !timed_out && old(self).loaded ==> (r matches Some(Ok(()))) && !final(self).waking
                && !final(self).idle_unloaded,
            !timed_out && !old(self).loaded && !old(self).loading ==> (r matches Some(
                Err(LlmError::Load(m)),
            ) && m@ == match old(self).last_error {
                Some(e) => e@,
                None => LOAD_FAILED_MSG@,
            }) && !final(self).waking && final(self).idle_unloaded == old(self).idle_unloaded,
            !timed_out && !old(self).loaded && old(self).loading ==> (r is None) && *final(self)
                == *old(self),
    {
        if timed_out {
            self.waking = false;
            return Some(Err(LlmError::Load(string_of(&chars_of(LOAD_TIMEOUT_MSG)))));
        }
        if self.loaded {
            self.waking = false;
            self.idle_unloaded = false;
            return Some(Ok(()));
        }
        if !self.loading {
            self.waking = false;
            let m = match &self.last_error {
                Some(e) => string_of(&chars_of(e)),
                None => string_of(&chars_of(LOAD_FAILED_MSG)),
            };
            return Some(Err(LlmError::Load(m)));
        }
        None
    }

    /// Marks an inference as running.
    pub fn begin_inference(&mut self)
        ensures
            final(self).inference_active,
            final(self).loaded == old(self).loaded,
            final(self).loading == old(self).loading,
            final(self).waking == old(self).waking,
            final(self).idle_unloaded == old(self).idle_unloaded,
            final(self).model_path == old(self).model_path,
            final(self).last_error == old(self).last_error,
            final(self).template_source == old(self).template_source,
    {
        self.inference_active = true;
    }

    /// Marks the inference as finished.
    pub fn end_inference(&mut self)
        ensures
            !final(self).inference_active,
            final(self).loaded == old(self).loaded,
            final(self).loading == old(self).loading,
            final(self).waking == old(self).waking,
            final(self).idle_unloaded == old(self).idle_unloaded,
            final(self).model_path == old(self).model_path,
            final(self).last_error == old(self).last_error,
            final(self).template_source == old(self).template_source,
    {
        self.inference_active = false;
    }
}

/// Law: a watcher tick never touches an engine that is running an inference
/// or a load, nor one idle for less than `IDLE_UNLOAD_AFTER_SECS`; for
/// resident weights idle that long it unloads them and keeps the model path,
/// so the next inference reloads the same file.
pub proof fn law_idle_unload(s: EngineState, idle_secs: u64)
    ensures
        s.inference_active || s.loading || idle_secs < IDLE_UNLOAD_AFTER_SECS ==> spec_watch_tick(
            s,
            idle_secs,
        ) == s,
        s.loaded && !s.inference_active && !s.loading && idle_secs >= IDLE_UNLOAD_AFTER_SECS ==> {
            let t = spec_watch_tick(s, idle_secs);
            &&& !t.loaded
            &&& t.idle_unloaded
            &&& t.model_path == s.model_path
        },
{
}


/// The engine after watcher ticks at the instants `times` (in seconds), the
/// last activity having been at `last_activity`.
pub open spec fn watch_run(s: EngineState, last_activity: int, times: Seq<int>) -> EngineState
    decreases times.len(),
{
    if times.len() == 0 {
        s
    } else {
        spec_watch_tick(
            watch_run(s, last_activity, times.drop_last()),
            (times.last() - last_activity) as u64,
        )
    }
}

/// Tick instants within the range of idle seconds the watcher measures.
pub open spec fn ticks_after(last_activity: int, times: Seq<int>) -> bool {
    forall|k: int|
        0 <= k < times.len() ==> last_activity <= #[trigger] times[k] && times[k] - last_activity
            <= u64::MAX
}

/// Ticks at most `IDLE_WATCH_INTERVAL_SECS` apart, in order.
pub open spec fn ticks_every_interval(times: Seq<int>) -> bool {
    forall|k: int|
        0 <= k < times.len() - 1 ==> #[trigger] times[k] <= times[k + 1] && times[k + 1] <= times[k]
            + IDLE_WATCH_INTERVAL_SECS
}

/// An engine whose weights are resident and idle.
pub open spec fn resident_idle(s: EngineState) -> bool {
    s.loaded && !s.inference_active && !s.loading
}

/// The watcher's effect on a resident idle engine: either nothing yet, or
/// unloaded (as an idle unload) with the model path kept.
pub open spec fn watch_outcome(s: EngineState, r: EngineState) -> bool {
    ||| r == s
    ||| (!r.loaded && r.idle_unloaded && r.model_path == s.model_path && !r.inference_active
        && !r.loading)
}

proof fn lemma_watch_run_shape(s: EngineState, la: int, times: Seq<int>)
    requires
        resident_idle(s),
        ticks_after(la, times),
    ensures
        watch_outcome(s, watch_run(s, la, times)),
        (exists|j: int| 0 <= j < times.len() && #[trigger] times[j] - la >= IDLE_UNLOAD_AFTER_SECS)
            ==> !watch_run(s, la, times).loaded,
        (forall|j: int| 0 <= j < times.len() ==> #[trigger] times[j] - la < IDLE_UNLOAD_AFTER_SECS)
            ==> watch_run(s, la, times) == s,
    decreases times.len(),
{
    if times.len() > 0 {
        let init = times.drop_last();
        assert(ticks_after(la, init)) by {
            assert forall|k: int| 0 <= k < init.len() implies la <= #[trigger] init[k] && init[k] - la
                <= u64::MAX by {
                assert(init[k] == times[k]);
            }
        }
        lemma_watch_run_shape(s, la, init);
        let last = times.len() - 1;
        assert(la <= times[last] && times[last] - la <= u64::MAX);
        if exists|j: int| 0 <= j < times.len() && #[trigger] times[j] - la >= IDLE_UNLOAD_AFTER_SECS {
            let j = choose|j: int| 0 <= j < times.len() && #[trigger] times[j] - la >= IDLE_UNLOAD_AFTER_SECS;
            if j < last {
                assert(init[j] == times[j]);
            }
        }
        if forall|j: int| 0 <= j < times.len() ==> #[trigger] times[j] - la < IDLE_UNLOAD_AFTER_SECS {
            assert forall|j: int| 0 <= j < init.len() implies #[trigger] init[j] - la < IDLE_UNLOAD_AFTER_SECS by {
                assert(init[j] == times[j]);
            }
        }
    }
}

/// Some tick falls in `target ..= target + interval` when ticks start by
/// `target + interval`, come every interval and go on to `target`.
proof fn lemma_tick_in_window(times: Seq<int>, target: int) -> (k: int)
    requires
        times.len() > 0,
        times[0] <= target + IDLE_WATCH_INTERVAL_SECS,
        ticks_every_interval(times),
        times.last() >= target,
    ensures
        0 <= k < times.len(),
        target <= times[k] <= target + IDLE_WATCH_INTERVAL_SECS,
    decreases times.len(),
{
    if times[0] >= target {
        0
    } else {
        let rest = times.drop_first();
        assert(times[0] <= times[1]);
        assert(rest[0] == times[1]);
        assert(ticks_every_interval(rest)) by {
            assert forall|k: int| 0 <= k < rest.len() - 1 implies #[trigger] rest[k] <= rest[k + 1]
                && rest[k + 1] <= rest[k] + IDLE_WATCH_INTERVAL_SECS by {
                assert(rest[k] == times[k + 1]);
                assert(rest[k + 1] == times[k + 2]);
            }
        }
        assert(rest.last() == times.last());
        let k = lemma_tick_in_window(rest, target);
        assert(rest[k] == times[k + 1]);
        k + 1
    }
}

/// Law: the idle watcher over time.  From instant `t` on the weights stay
/// resident with no inference, no load and no activity (the last one at or
/// before `t`), and the watcher ticks every `IDLE_WATCH_INTERVAL_SECS` from
/// `t`.  Then by `t + IDLE_UNLOAD_AFTER_SECS + IDLE_WATCH_INTERVAL_SECS` some
/// tick has unloaded the weights, keeping the model path, and they stay
/// unloaded; no tick unloads before `IDLE_UNLOAD_AFTER_SECS` of idleness.
pub proof fn law_idle_unload_in_time(s: EngineState, last_activity: int, t: int, times: Seq<int>)
    requires
        resident_idle(s),
        last_activity <= t,
        ticks_after(last_activity, times),
        ticks_every_interval(times),
        times.len() > 0,
        t <= times[0] <= t + IDLE_WATCH_INTERVAL_SECS,
        times.last() >= t + IDLE_UNLOAD_AFTER_SECS,
    ensures
        exists|k: int|
            0 <= k < times.len() && #[trigger] times[k] <= t + IDLE_UNLOAD_AFTER_SECS
                + IDLE_WATCH_INTERVAL_SECS && {
                let r = watch_run(s, last_activity, times.take(k + 1));
                &&& !r.loaded
                &&& r.idle_unloaded
                &&& r.model_path == s.model_path
            },
        !watch_run(s, last_activity, times).loaded,
        watch_run(s, last_activity, times).idle_unloaded,
        watch_run(s, last_activity, times).model_path == s.model_path,
        forall|n: int|
            0 <= n <= times.len() && (forall|j: int|
                0 <= j < n ==> #[trigger] times[j] - last_activity < IDLE_UNLOAD_AFTER_SECS)
                ==> #[trigger] watch_run(s, last_activity, times.take(n)) == s,
{
    let la = last_activity;
    let k = lemma_tick_in_window(times, t + IDLE_UNLOAD_AFTER_SECS);
    let run = times.take(k + 1);
    assert(ticks_after(la, run)) by {
        assert forall|i: int| 0 <= i < run.len() implies la <= #[trigger] run[i] && run[i] - la
            <= u64::MAX by {
            assert(run[i] == times[i]);
        }
    }
    assert(run[k] == times[k]);
    assert(run[k] - la >= IDLE_UNLOAD_AFTER_SECS);
    lemma_watch_run_shape(s, la, run);
    lemma_watch_run_shape(s, la, times);
    assert(times.len() - 1 >= 0);
    assert(times[times.len() - 1] - la >= IDLE_UNLOAD_AFTER_SECS);
    assert forall|n: int|
        0 <= n <= times.len() && (forall|j: int|
            0 <= j < n ==> #[trigger] times[j] - la < IDLE_UNLOAD_AFTER_SECS) implies #[trigger] watch_run(
        s,
        la,
        times.take(n),
    ) == s by {
        let p = times.take(n);
        assert forall|i: int| 0 <= i < p.len() implies la <= #[trigger] p[i] && p[i] - la <= u64::MAX by {
            assert(p[i] == times[i]);
        }
        assert forall|j: int| 0 <= j < p.len() implies #[trigger] p[j] - la < IDLE_UNLOAD_AFTER_SECS by {
            assert(p[j] == times[j]);
        }
        lemma_watch_run_shape(s, la, p);
    }
}

} // verus!
