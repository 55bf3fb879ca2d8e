//! Internal document consistency (contradiction) analysis: prompts, parsing of
//! the model's JSON answers and assembly of the final report.

use vstd::prelude::*;

use crate::grounding::{
    dedupe_contradictions, filter_grounded_contradictions, grounded_in, spec_dedupe,
    spec_summary_grounded, summary_grounded_in_source,
};
use crate::json::{json_get, json_member, parse_json, spec_json_parse, JsonValue};
use crate::models::{item_views, ContradictionItem, ContradictionReport, ItemView};
use crate::text::{
    join, views, chars_of, decimal, extend_chars, extend_str, push_decimal, string_of, string_views, trim,
    trim_chars, trim_str,
};

verus! {

// ---------------------------------------------------------------------------
// Locating the JSON object in a model answer.
// ---------------------------------------------------------------------------

/// Index of the first `c` at or after `i`.
pub open spec fn find_first(s: Seq<char>, c: char, i: int) -> Option<int>
    decreases s.len() - i,
{
    if i < 0 || i >= s.len() {
        None
    } else if s[i] == c {
        Some(i)
    } else {
        find_first(s, c, i + 1)
    }
}

/// Index of the last `c` before `j`.
pub open spec fn find_last(s: Seq<char>, c: char, j: int) -> Option<int>
    decreases j,
{
    if j <= 0 || j > s.len() {
        None
    } else if s[j - 1] == c {
        Some(j - 1)
    } else {
        find_last(s, c, j - 1)
    }
}

/// The text from the first `{` through the last `}`, when the latter follows the former.
pub open spec fn spec_extract_json(s: Seq<char>) -> Option<Seq<char>> {
    match (find_first(s, '{', 0), find_last(s, '}', s.len() as int)) {
        (Some(a), Some(b)) => if b > a {
            Some(s.subrange(a, b + 1))
        } else {
            None
        },
        _ => None,
    }
}

fn extract_json_chars(s: &Vec<char>) -> (r: Option<Vec<char>>)
    ensures
        match r {
            Some(v) => spec_extract_json(s@) == Some(v@),
            None => spec_extract_json(s@) is None,
        },
{
    let mut a: usize = 0;
    while a < s.len() && s[a] != '{'
        invariant
            a <= s.len(),
            find_first(s@, '{', 0) == find_first(s@, '{', a as int),
        decreases s.len() - a,
    {
        a = a + 1;
    }
    if a == s.len() {
        return None;
    }
    let mut b: usize = s.len();
    while b > 0 && s[b - 1] != '}'
        invariant
            b <= s.len(),
            find_last(s@, '}', s.len() as int) == find_last(s@, '}', b as int),
        decreases b,
    {
        b = b - 1;
    }
    if b == 0 {
        return None;
    }
    let end = b - 1;
    if end <= a {
        return None;
    }
    let mut out: Vec<char> = Vec::new();
    let mut k = a;
    while k <= end
        invariant
            a <= k <= end + 1,
            end < s.len(),
            out@ == s@.subrange(a as int, k as int),
        decreases end + 1 - k,
    {
        out.push(s[k]);
        assert(s@.subrange(a as int, k + 1) =~= s@.subrange(a as int, k as int).push(s@[k as int]));
        k = k + 1;
    }
    Some(out)
}

/// The JSON object embedded in `s`: from the first `{` to the last `}`.
pub fn extract_json_object(s: &str) -> (r: Option<String>)
    ensures
        match r {
            Some(x) => spec_extract_json(s@) == Some(x@),
            None => spec_extract_json(s@) is None,
        },
{
    let v = chars_of(s);
    match extract_json_chars(&v) {
        Some(o) => Some(string_of(&o)),
        None => None,
    }
}

// ---------------------------------------------------------------------------
// Reading one chunk's analysis out of a JSON value.
// ---------------------------------------------------------------------------

/// One chunk's analysis as reported by the model.
pub struct ChunkParse {
    pub summary: String,
    pub contradictions: Vec<ContradictionItem>,
    pub key_claims: Vec<String>,
}

/// `(summary, contradictions, key_claims)`.
pub type ChunkParseView = (Seq<char>, Seq<ItemView>, Seq<Seq<char>>);

impl View for ChunkParse {
    type V = ChunkParseView;

    open spec fn view(&self) -> ChunkParseView {
        (self.summary@, item_views(self.contradictions@), string_views(self.key_claims@))
    }
}

/// The string under `snake`, else under `camel` (only when `snake` is absent);
/// empty when that member is missing or not a string.
pub open spec fn json_str_field(item: JsonValue, snake: Seq<char>, camel: Seq<char>) -> Seq<char> {
    let f = match json_get(item, snake) {
        Some(x) => Some(x),
        None => json_get(item, camel),
    };
    match f {
        Some(JsonValue::Str(s)) => s@,
        _ => seq![],
    }
}

/// A contradiction read from one array element; `None` when either statement is blank.
pub open spec fn item_from_json(item: JsonValue) -> Option<ItemView> {
    let a = json_str_field(item, "statement_a"@, "statementA"@);
    let b = json_str_field(item, "statement_b"@, "statementB"@);
    let e = json_str_field(item, "explanation"@, "explanation"@);
    if trim(a).len() == 0 || trim(b).len() == 0 {
        None
    } else {
        Some((a, b, e))
    }
}

/// The contradictions read from an array, blank ones skipped.
pub open spec fn items_from_json(arr: Seq<JsonValue>) -> Seq<ItemView>
    decreases arr.len(),
{
    if arr.len() == 0 {
        seq![]
    } else {
        let prev = items_from_json(arr.drop_last());
        match item_from_json(arr.last()) {
            Some(v) => prev.push(v),
            None => prev,
        }
    }
}

/// Shortest key claim that is kept.
pub open spec fn min_claim_chars() -> nat {
    8
}

/// The trimmed string claims of at least eight characters, in order.
pub open spec fn claims_from_json(arr: Seq<JsonValue>) -> Seq<Seq<char>>
    decreases arr.len(),
{
    if arr.len() == 0 {
        seq![]
    } else {
        let prev = claims_from_json(arr.drop_last());
        match arr.last() {
            JsonValue::Str(s) => if trim(s@).len() >= min_claim_chars() {
                prev.push(trim(s@))
            } else {
                prev
            },
            _ => prev,
        }
    }
}

/// The key claims of an analysis: the array under `key_claims` (else `keyClaims`).
pub open spec fn key_claims_of(v: JsonValue) -> Seq<Seq<char>> {
    let f = match json_get(v, "key_claims"@) {
        Some(x) => Some(x),
        None => json_get(v, "keyClaims"@),
    };
    match f {
        Some(JsonValue::Array(cs)) => claims_from_json(cs@),
        _ => seq![],
    }
}

/// An analysis needs a string `summary` and an array `contradictions`.
pub open spec fn spec_chunk_parse(v: JsonValue) -> Option<ChunkParseView> {
    match json_get(v, "summary"@) {
        Some(JsonValue::Str(summary)) => match json_get(v, "contradictions"@) {
            Some(JsonValue::Array(arr)) => Some(
                (summary@, items_from_json(arr@), key_claims_of(v)),
            ),
            _ => None,
        },
        _ => None,
    }
}

fn str_field(item: &JsonValue, snake: &str, camel: &str) -> (r: Vec<char>)
    ensures
        r@ == json_str_field(*item, snake@, camel@),
{
    let f = match json_member(item, snake) {
        Some(x) => Some(x),
        None => json_member(item, camel),
    };
    match f {
        Some(JsonValue::Str(s)) => chars_of(s),
        _ => Vec::new(),
    }
}

fn items_from_array(arr: &Vec<JsonValue>) -> (r: Vec<ContradictionItem>)
    ensures
        item_views(r@) == items_from_json(arr@),
{
    let mut out: Vec<ContradictionItem> = Vec::new();
    let mut i: usize = 0;
    while i < arr.len()
        invariant
            i <= arr.len(),
            item_views(out@) == items_from_json(arr@.take(i as int)),
        decreases arr.len() - i,
    {
        assert(arr@.take(i + 1).drop_last() =~= arr@.take(i as int));
        assert(arr@.take(i + 1).last() == arr@[i as int]);
        let a = str_field(&arr[i], "statement_a", "statementA");
        let b = str_field(&arr[i], "statement_b", "statementB");
        let e = str_field(&arr[i], "explanation", "explanation");
        let ta = trim_chars(&a);
        let tb = trim_chars(&b);
        if ta.len() > 0 && tb.len() > 0 {
            let item = ContradictionItem {
                statement_a: string_of(&a),
                statement_b: string_of(&b),
                explanation: string_of(&e),
            };
            let ghost before = out@;
            out.push(item);
            assert(item_views(out@) =~= item_views(before).push(item@));
        }
        i = i + 1;
    }
    assert(arr@.take(arr.len() as int) =~= arr@);
    out
}

fn claims_from_array(arr: &Vec<JsonValue>) -> (r: Vec<String>)
    ensures
        string_views(r@) == claims_from_json(arr@),
{
    let mut out: Vec<String> = Vec::new();
    let mut i: usize = 0;
    while i < arr.len()
        invariant
            i <= arr.len(),
            string_views(out@) == claims_from_json(arr@.take(i as int)),
        decreases arr.len() - i,
    {
        assert(arr@.take(i + 1).drop_last() =~= arr@.take(i as int));
        assert(arr@.take(i + 1).last() == arr@[i as int]);
        match &arr[i] {
            JsonValue::Str(s) => {
                let t = trim_str(s);
                if t.len() >= 8 {
                    let ghost before = out@;
                    let ts = string_of(&t);
                    out.push(ts);
                    assert(string_views(out@) =~= string_views(before).push(t@));
                }
            },
            _ => {},
        }
        i = i + 1;
    }
    assert(arr@.take(arr.len() as int) =~= arr@);
    out
}

/// Reads one chunk's analysis out of a parsed JSON value.
pub fn chunk_parse_from_json(v: &JsonValue) -> (r: Option<ChunkParse>)
    ensures
        match r {
            Some(p) => spec_chunk_parse(*v) == Some(p@),
            None => spec_chunk_parse(*v) is None,
        },
{
    let summary = match json_member(v, "summary") {
        Some(JsonValue::Str(s)) => s,
        _ => return None,
    };
    let arr = match json_member(v, "contradictions") {
        Some(JsonValue::Array(a)) => a,
        _ => return None,
    };
    let contradictions = items_from_array(arr);
    let claims_v = match json_member(v, "key_claims") {
        Some(x) => Some(x),
        None => json_member(v, "keyClaims"),
    };
    let key_claims = match claims_v {
        Some(JsonValue::Array(cs)) => claims_from_array(cs),
        _ => Vec::new(),
    };
    let summary_copy = string_of(&chars_of(summary));
    let p = ChunkParse { summary: summary_copy, contradictions, key_claims };
    assert(string_views(p.key_claims@) == key_claims_of(*v));
    Some(p)
}

/// What parsing a raw model answer yields: trim it, cut out the JSON object,
/// parse it, read the analysis.
pub open spec fn spec_parse_chunk_analysis(raw: Seq<char>) -> Option<ChunkParseView> {
    match spec_extract_json(trim(raw)) {
        None => None,
        Some(js) => match spec_json_parse(js) {
            None => None,
            Some(v) => spec_chunk_parse(v),
        },
    }
}

/// Parses a raw model answer into one chunk's analysis.
pub fn parse_chunk_analysis(raw: &str) -> (r: Option<ChunkParse>)
    ensures
        match r {
            Some(p) => spec_parse_chunk_analysis(raw@) == Some(p@),
            None => spec_parse_chunk_analysis(raw@) is None,
        },
{
    let t = trim_str(raw);
    let js = match extract_json_chars(&t) {
        Some(j) => j,
        None => return None,
    };
    let text = string_of(&js);
    let value = match parse_json(&text) {
        Some(v) => v,
        None => return None,
    };
    chunk_parse_from_json(&value)
}

/// A report carrying only what one answer says: no length, not chunked, not failed.
pub open spec fn report_from_parse(p: ChunkParseView, r: ContradictionReport) -> bool {
    &&& r.summary@ == p.0
    &&& item_views(r.contradictions@) == p.1
    &&& r.document_length_chars == 0
    &&& !r.was_chunked
    &&& !r.analysis_failed
}

/// Parses a raw model answer into a bare report.
pub fn parse_contradiction_json(raw: &str) -> (r: Option<ContradictionReport>)
    ensures
        match r {
            Some(rep) => spec_parse_chunk_analysis(raw@) matches Some(p) && report_from_parse(
                p,
                rep,
            ),
            None => spec_parse_chunk_analysis(raw@) is None,
        },
{
    match parse_chunk_analysis(raw) {
        Some(p) => Some(
            ContradictionReport {
                summary: p.summary,
                contradictions: p.contradictions,
                document_length_chars: 0,
                was_chunked: false,
                analysis_failed: false,
            },
        ),
        None => None,
    }
}

// ---------------------------------------------------------------------------
// Prompts.
// ---------------------------------------------------------------------------

pub const SYSTEM_HEAD: &'static str = "You are Faqih AI. Task: INTERNAL consistency check of a legal/contract document.\nThis is NOT legal research — do not cite Uzbekistan Labor/Civil codes unless the document itself quotes them.\n";

pub const SYSTEM_RULES: &'static str = "\n\nRules (strict):\n1. Read ONLY the document text in the user message.\n2. Find pairs of statements that contradict each other.\n3. statement_a and statement_b MUST be near-verbatim quotes copied from the document.\n4. If you are unsure, return an empty contradictions array — never invent facts, topics, or quotes.\n5. summary must describe THIS document (parties, obligations, numbers) — not concerts, tickets, unrelated news, etc.\n6. Prefer Uzbek for summary/explanation when the document is in Uzbek.\n";

pub const SYSTEM_FORMAT: &'static str = "\n\nRespond with ONLY valid JSON (no markdown fences, no commentary):\n{\n  \"summary\": \"string\",\n  \"contradictions\": [\n    {\n      \"statement_a\": \"direct quote from document\",\n      \"statement_b\": \"direct quote from document\",\n      \"explanation\": \"why these conflict\"\n    }\n  ],\n  \"key_claims\": [\"short verbatim quote\", \"...\"]\n}\n\nIf none: {\"summary\":\"Ichki ziddiyat topilmadi.\",\"contradictions\":[],\"key_claims\":[]}";

pub const SCOPE_SINGLE: &'static str = "You are analyzing ONE complete short document (not a fragment). Do not invent missing pages or compare against content that is not present.";

pub const SCOPE_CHUNK_HEAD: &'static str = "This is chunk ";

pub const SCOPE_CHUNK_OF: &'static str = " of ";

pub const SCOPE_CHUNK_TAIL: &'static str = ". Find contradictions visible inside this chunk (including overlapping edges). Also extract key factual claims as short verbatim quotes for a later cross-chunk check. Do not invent text from other chunks.";

pub const CLAIMS_RULE_SINGLE: &'static str = "7. You may omit key_claims or return an empty array.";

pub const CLAIMS_RULE_CHUNK: &'static str = "7. Also return key_claims: 3–12 short verbatim factual quotes (obligations, dates, amounts, places) from THIS chunk.";

pub const USER_SINGLE_HEAD: &'static str = "Quyidagi TO‘LIQ hujjatni ichki ziddiyatlar uchun tahlil qiling.\nFaqat shu matndan iqtibos oling. Matnda yo‘q mavzularni o‘ylab topmang.\n\n--- HUJJAT BOSHLANISHI ---\n";

pub const USER_SINGLE_TAIL: &'static str = "\n--- HUJJAT TUGASHI ---";

pub const USER_CHUNK_HEAD: &'static str = "Quyidagi hujjat BO‘LIMI (";

pub const USER_CHUNK_MID: &'static str = ") ni ichki ziddiyatlar uchun tahlil qiling.\nFaqat shu bo‘lim matnidan iqtibos oling. Muhim faktik bandlarni key_claims ga qo‘shing.\n\n--- BO‘LIM BOSHLANISHI ---\n";

pub const USER_CHUNK_TAIL: &'static str = "\n--- BO‘LIM TUGASHI ---";

/// The system prompt for one chunk of the analysis.
pub open spec fn spec_system_prompt(single_chunk: bool, total_chunks: nat, chunk_idx: nat) -> Seq<
    char,
> {
    let scope = if single_chunk {
        SCOPE_SINGLE@
    } else {
        SCOPE_CHUNK_HEAD@ + decimal(chunk_idx + 1) + SCOPE_CHUNK_OF@ + decimal(total_chunks)
            + SCOPE_CHUNK_TAIL@
    };
    let claims_rule = if single_chunk {
        CLAIMS_RULE_SINGLE@
    } else {
        CLAIMS_RULE_CHUNK@
    };
    SYSTEM_HEAD@ + scope + SYSTEM_RULES@ + claims_rule + SYSTEM_FORMAT@
}

/// The user message framing one chunk.
pub open spec fn spec_user_message(chunk: Seq<char>, single_chunk: bool, total_chunks: nat, chunk_idx: nat) -> Seq<char> {
    if single_chunk {
        USER_SINGLE_HEAD@ + chunk + USER_SINGLE_TAIL@
    } else {
        USER_CHUNK_HEAD@ + decimal(chunk_idx + 1) + "/"@ + decimal(total_chunks) + USER_CHUNK_MID@
            + chunk + USER_CHUNK_TAIL@
    }
}

/// System prompt for the internal-consistency check of one chunk.
pub fn contradiction_system_prompt(single_chunk: bool, total_chunks: usize, chunk_idx: usize) -> (r: String)
    requires
        chunk_idx < usize::MAX,
    ensures
        r@ == spec_system_prompt(single_chunk, total_chunks as nat, chunk_idx as nat),
{
    let mut v: Vec<char> = Vec::new();
    extend_str(&mut v, SYSTEM_HEAD);
    if single_chunk {
        extend_str(&mut v, SCOPE_SINGLE);
    } else {
        extend_str(&mut v, SCOPE_CHUNK_HEAD);
        push_decimal(&mut v, (chunk_idx + 1) as u64);
        extend_str(&mut v, SCOPE_CHUNK_OF);
        push_decimal(&mut v, total_chunks as u64);
        extend_str(&mut v, SCOPE_CHUNK_TAIL);
    }
    extend_str(&mut v, SYSTEM_RULES);
    if single_chunk {
        extend_str(&mut v, CLAIMS_RULE_SINGLE);
    } else {
        extend_str(&mut v, CLAIMS_RULE_CHUNK);
    }
    extend_str(&mut v, SYSTEM_FORMAT);
    assert(v@ =~= spec_system_prompt(single_chunk, total_chunks as nat, chunk_idx as nat));
    string_of(&v)
}

/// User message framing one chunk (the whole document when it is a single chunk).
pub fn contradiction_user_message(chunk: &str, single_chunk: bool, total_chunks: usize, chunk_idx: usize) -> (r: String)
    requires
        chunk_idx < usize::MAX,
    ensures
        r@ == spec_user_message(chunk@, single_chunk, total_chunks as nat, chunk_idx as nat),
{
    let mut v: Vec<char> = Vec::new();
    if single_chunk {
        extend_str(&mut v, USER_SINGLE_HEAD);
        extend_str(&mut v, chunk);
        extend_str(&mut v, USER_SINGLE_TAIL);
    } else {
        extend_str(&mut v, USER_CHUNK_HEAD);
        push_decimal(&mut v, (chunk_idx + 1) as u64);
        extend_str(&mut v, "/");
        push_decimal(&mut v, total_chunks as u64);
        extend_str(&mut v, USER_CHUNK_MID);
        extend_str(&mut v, chunk);
        extend_str(&mut v, USER_CHUNK_TAIL);
    }
    assert(v@ =~= spec_user_message(chunk@, single_chunk, total_chunks as nat, chunk_idx as nat));
    string_of(&v)
}

/// System prompt of a chunk, stated from the caller's side (`was_chunked`).
pub fn contradiction_system_prompt_for_test(was_chunked: bool, total_chunks: usize, chunk_idx: usize) -> (r: String)
    requires
        chunk_idx < usize::MAX,
    ensures
        r@ == spec_system_prompt(!was_chunked, total_chunks as nat, chunk_idx as nat),
{
    contradiction_system_prompt(!was_chunked, total_chunks, chunk_idx)
}

/// User message of a chunk, stated from the caller's side (`was_chunked`).
pub fn contradiction_user_message_for_test(chunk: &str, was_chunked: bool, total_chunks: usize, chunk_idx: usize) -> (r: String)
    requires
        chunk_idx < usize::MAX,
    ensures
        r@ == spec_user_message(chunk@, !was_chunked, total_chunks as nat, chunk_idx as nat),
{
    contradiction_user_message(chunk, !was_chunked, total_chunks, chunk_idx)
}

/// Parses a raw model answer into a bare report (see [`parse_contradiction_json`]).
pub fn parse_contradiction_json_for_test(raw: &str) -> (r: Option<ContradictionReport>)
    ensures
        match r {
            Some(rep) => spec_parse_chunk_analysis(raw@) matches Some(p) && report_from_parse(
                p,
                rep,
            ),
            None => spec_parse_chunk_analysis(raw@) is None,
        },
{
    parse_contradiction_json(raw)
}

/// Grounding filter (see [`filter_grounded_contradictions`]).
pub fn filter_grounded_contradictions_for_test(items: Vec<ContradictionItem>, source: &str) -> (r: Vec<ContradictionItem>)
    ensures
        r@ == items@.filter(grounded_in(source@)),
{
    filter_grounded_contradictions(items, source)
}

/// Summary grounding (see [`summary_grounded_in_source`]).
pub fn summary_grounded_in_source_for_test(summary: &str, source: &str) -> (r: bool)
    ensures
        r == spec_summary_grounded(summary@, source@),
{
    summary_grounded_in_source(summary, source)
}

/// De-duplication (see [`dedupe_contradictions`]).
pub fn dedupe_contradictions_for_test(items: Vec<ContradictionItem>) -> (r: Vec<ContradictionItem>)
    ensures
        item_views(r@) == spec_dedupe(item_views(items@)),
{
    dedupe_contradictions(items)
}

// ---------------------------------------------------------------------------
// The analysis of one document, step by step: the caller runs the model on the
// prompts handed out here and feeds the answers back.
// ---------------------------------------------------------------------------

pub const ANALYSIS_FAILED_UZ: &'static str = "Tahlil aniq bo‘lmadi, qayta urinib ko‘ring.";

pub const FOUND_UZ: &'static str = "Hujjatda ichki ziddiyatlar aniqlandi.";

pub const NONE_FOUND_UZ: &'static str = "Ichki ziddiyat topilmadi.";

pub const MERGED_SUMMARY_TAIL: &'static str = " bo‘lim tahlil qilindi; natijalar birlashtirildi va takrorlar olib tashlandi.";

pub const CHUNK_DISCLAIMER_UZ: &'static str = " Eslatma: hujjat uzunligi sababli bo‘limlarga bo‘lib tahlil qilindi; bo‘limlar oralig‘ini qisman qoplash va yakuniy moslashtirish qo‘llanildi, ammo uzoq joylashgan ziddiyatlar hali ham qisman qolib ketishi mumkin.";

pub const EMPTY_DOCUMENT_MSG: &'static str = "Document is empty or could not be parsed";

pub const RECONCILE_PARSE_FAILED: &'static str = "reconcile parse failed";

pub const RECONCILE_SYSTEM: &'static str = "You are Faqih AI reconciling multi-chunk document analysis.\nYou receive ONLY extracted claims/quotes (not the full document).\nFind contradictions BETWEEN claims from different parts, and drop near-duplicates.\nRules:\n1. statement_a and statement_b must be copied from the provided claims list (near-verbatim).\n2. Do not invent new facts.\n3. Prefer Uzbek for explanation when claims are in Uzbek.\n4. Respond with ONLY valid JSON:\n{\"summary\":\"string\",\"contradictions\":[{\"statement_a\":\"...\",\"statement_b\":\"...\",\"explanation\":\"...\"}],\"key_claims\":[]}\n5. If nothing new, return an empty contradictions array.";

/// Claims sent to the reconciliation pass at most.
pub const MAX_RECONCILE_CLAIMS: usize = 48;

/// Minimum token budget of an analysis answer.
pub const ANALYSIS_MAX_TOKENS: u32 = 1024;

/// Token budget of each analysis answer: the configured one, at least 1024.
pub fn analysis_max_tokens(configured: u32) -> (r: u32)
    ensures
        r == if configured < ANALYSIS_MAX_TOKENS {
            ANALYSIS_MAX_TOKENS
        } else {
            configured
        },
{
    if configured < ANALYSIS_MAX_TOKENS {
        ANALYSIS_MAX_TOKENS
    } else {
        configured
    }
}

/// Character budget of a chunk: three quarters of the context (saturating),
/// clamped to 2000..=12000.
pub open spec fn spec_chunk_budget(n_ctx: u32) -> int {
    let three = if n_ctx * 3 > usize::MAX {
        usize::MAX as int
    } else {
        n_ctx * 3
    };
    let q = three / 4;
    if q < 2000 {
        2000
    } else if q > 12000 {
        12000
    } else {
        q
    }
}

/// The chunk budget for a context window of `n_ctx` tokens.
pub fn analysis_chunk_budget(n_ctx: u32) -> (r: usize)
    ensures
        r == spec_chunk_budget(n_ctx),
{
    let n = n_ctx as usize;
    let three = if n > usize::MAX / 3 {
        usize::MAX
    } else {
        n * 3
    };
    let q = three / 4;
    if q < 2000 {
        2000
    } else if q > 12000 {
        12000
    } else {
        q
    }
}

/// The analysis of one document in progress.
pub struct AnalysisSession {
    pub text: String,
    pub chunks: Vec<String>,
    pub document_length_chars: usize,
    pub items: Vec<ContradictionItem>,
    pub claims: Vec<String>,
    pub summaries: Vec<String>,
    pub any_parse_failed: bool,
    pub any_ungrounded: bool,
    pub next_chunk: usize,
}

/// The document needs more than one chunk.
pub open spec fn was_chunked(s: &AnalysisSession) -> bool {
    s.chunks@.len() > 1
}

/// Claims kept from one answer: quoted from the chunk and at least 12 characters long.
pub open spec fn claim_kept_in(chunk: Seq<char>) -> spec_fn(Seq<char>) -> bool {
    |c: Seq<char>| crate::grounding::spec_quote_in_source(c, chunk) && c.len() >= 12
}

fn count_chars(s: &str) -> (n: usize)
    ensures
        n == s@.len(),
{
    let v = chars_of(s);
    v.len()
}

/// Starts the analysis of `text` under a context window of `n_ctx` tokens:
/// an error for an empty document, otherwise a fresh session over the chunks.
pub fn start_analysis(text: &str, n_ctx: u32) -> (r: Result<AnalysisSession, String>)
    ensures
        text@.len() == 0 ==> (r matches Err(e) && e@ == EMPTY_DOCUMENT_MSG@),
        text@.len() > 0 ==> (r matches Ok(s) && {
            let budget = spec_chunk_budget(n_ctx);
            let ov = if budget / 3 < 600 {
                600
            } else if budget / 3 > 2500 {
                2500
            } else {
                budget / 3
            };
            &&& s.text@ == text@
            &&& string_views(s.chunks@) == crate::document_text::spec_chunk_text(text@, budget, ov)
            &&& s.document_length_chars == text@.len()
            &&& s.items@.len() == 0
            &&& s.claims@.len() == 0
            &&& s.summaries@.len() == 0
            &&& !s.any_parse_failed
            &&& !s.any_ungrounded
            &&& s.next_chunk == 0
        }),
{
    let n = count_chars(text);
    if n == 0 {
        return Err(string_of(&chars_of(EMPTY_DOCUMENT_MSG)));
    }
    let budget = analysis_chunk_budget(n_ctx);
    let overlap = crate::document_text::recommended_chunk_overlap(budget);
    let chunks = crate::document_text::chunk_text(text, budget, overlap);
    Ok(
        AnalysisSession {
            text: string_of(&chars_of(text)),
            chunks,
            document_length_chars: n,
            items: Vec::new(),
            claims: Vec::new(),
            summaries: Vec::new(),
            any_parse_failed: false,
            any_ungrounded: false,
            next_chunk: 0,
        },
    )
}

impl AnalysisSession {
    /// The system prompt and user message for the next chunk, if any is left.
    pub fn next_prompts(&self) -> (r: Option<(String, String)>)
        ensures
            self.next_chunk < self.chunks@.len() ==> (r matches Some(p) && p.0@ == spec_system_prompt(
                !was_chunked(self),
                self.chunks@.len() as nat,
                self.next_chunk as nat,
            ) && p.1@ == spec_user_message(
                self.chunks@[self.next_chunk as int]@,
                !was_chunked(self),
                self.chunks@.len() as nat,
                self.next_chunk as nat,
            )),
            self.next_chunk >= self.chunks@.len() ==> r is None,
    {
        if self.next_chunk >= self.chunks.len() {
            return None;
        }
        let single = self.chunks.len() <= 1;
        let system = contradiction_system_prompt(single, self.chunks.len(), self.next_chunk);
        let user = contradiction_user_message(
            &self.chunks[self.next_chunk],
            single,
            self.chunks.len(),
            self.next_chunk,
        );
        Some((system, user))
    }

    /// Records the model's answer for the next chunk: keeps the contradictions
    /// grounded in the chunk, replaces an ungrounded summary (or counts the
    /// answer as failed when nothing grounded remains), and keeps the key
    /// claims quoted from the chunk.
    pub fn record_chunk_answer(&mut self, raw: &str)
        requires
            old(self).next_chunk < old(self).chunks@.len(),
        ensures
            final(self).text == old(self).text,
            final(self).chunks == old(self).chunks,
            final(self).document_length_chars == old(self).document_length_chars,
            final(self).next_chunk == old(self).next_chunk + 1,
            ({
                let chunk = old(self).chunks@[old(self).next_chunk as int]@;
                match spec_parse_chunk_analysis(raw@) {
                    None => {
                        &&& final(self).any_parse_failed
                        &&& final(self).any_ungrounded == old(self).any_ungrounded
                        &&& item_views(final(self).items@) == item_views(old(self).items@)
                        &&& string_views(final(self).claims@) == string_views(old(self).claims@)
                        &&& string_views(final(self).summaries@) == string_views(old(self).summaries@)
                    },
                    Some(p) => {
                        let kept = p.1.filter(crate::grounding::grounded_view(chunk));
                        let summary_ok = spec_summary_grounded(p.0, chunk);
                        &&& item_views(final(self).items@) == item_views(old(self).items@) + kept
                        &&& string_views(final(self).claims@) == string_views(old(self).claims@)
                            + p.2.filter(claim_kept_in(chunk))
                        &&& string_views(final(self).summaries@) == string_views(
                            old(self).summaries@,
                        ).push(
                            if !summary_ok && kept.len() > 0 {
                                FOUND_UZ@
                            } else {
                                p.0
                            },
                        )
                        &&& final(self).any_ungrounded == (old(self).any_ungrounded || (p.1.len() > 0
                            && kept.len() == 0) || !summary_ok)
                        &&& final(self).any_parse_failed == (old(self).any_parse_failed || (
                        !summary_ok && kept.len() == 0))
                    },
                }
            }),
    {
        let idx = self.next_chunk;
        let n_chunks = self.chunks.len();
        assert(idx < n_chunks);
        self.next_chunk = idx + 1;
        let parsed = parse_chunk_analysis(raw);
        let p = match parsed {
            Some(p) => p,
            None => {
                self.any_parse_failed = true;
                return;
            },
        };
        let chunk: &str = &self.chunks[idx];
        let ghost chunk_v = chunk@;
        let before = p.contradictions.len();
        let kept = filter_grounded_contradictions(p.contradictions, chunk);
        if before > 0 && kept.len() == 0 {
            self.any_ungrounded = true;
        }
        let mut summary = p.summary;
        if !summary_grounded_in_source(&summary, chunk) {
            self.any_ungrounded = true;
            if kept.len() == 0 {
                self.any_parse_failed = true;
            } else {
                summary = string_of(&chars_of(FOUND_UZ));
            }
        }
        // Key claims quoted from this chunk.
        let ghost cv = string_views(p.key_claims@);
        let ghost flags = (self.any_parse_failed, self.any_ungrounded);
        let ghost snap_items = self.items@;
        let ghost snap_claims = self.claims@;
        let ghost snap_summaries = self.summaries@;
        let mut claims_kept: Vec<String> = Vec::new();
        for c in it: p.key_claims
            invariant
                self.text == old(self).text,
                self.chunks == old(self).chunks,
                self.document_length_chars == old(self).document_length_chars,
                self.next_chunk == old(self).next_chunk + 1,
                self.any_parse_failed == flags.0,
                self.any_ungrounded == flags.1,
                self.items@ == snap_items,
                self.claims@ == snap_claims,
                self.summaries@ == snap_summaries,
                it.seq() == p.key_claims@,
                cv == string_views(p.key_claims@),
                chunk@ == chunk_v,
                string_views(claims_kept@) == cv.take(it.index() as int).filter(claim_kept_in(chunk_v)),
        {
            let ghost i = it.index() as int;
            proof {
                crate::grounding::lemma_filter_step(cv, i, claim_kept_in(chunk_v));
            }
            assert(c == p.key_claims@[i]);
            assert(cv[i] == c@);
            if crate::grounding::quote_in_source(&c, chunk) && count_chars(&c) >= 12 {
                let ghost b4 = claims_kept@;
                claims_kept.push(c);
                assert(string_views(claims_kept@) =~= string_views(b4).push(cv[i]));
            }
        }
        assert(cv.take(cv.len() as int) =~= cv);
        let ghost old_items = item_views(self.items@);
        let ghost old_claims = string_views(self.claims@);
        let ghost old_summaries = string_views(self.summaries@);
        self.summaries.push(summary);
        assert(string_views(self.summaries@) =~= old_summaries.push(summary@));
        let mut k: usize = 0;
        while k < kept.len()
            invariant
                self.text == old(self).text,
                self.chunks == old(self).chunks,
                self.document_length_chars == old(self).document_length_chars,
                self.next_chunk == old(self).next_chunk + 1,
                self.any_parse_failed == flags.0,
                self.any_ungrounded == flags.1,
                self.claims@ == snap_claims,
                string_views(self.summaries@) == old_summaries.push(summary@),
                k <= kept.len(),
                item_views(self.items@) == old_items + item_views(kept@).take(k as int),
            decreases kept.len() - k,
        {
            let it = ContradictionItem {
                statement_a: string_of(&chars_of(&kept[k].statement_a)),
                statement_b: string_of(&chars_of(&kept[k].statement_b)),
                explanation: string_of(&chars_of(&kept[k].explanation)),
            };
            let ghost b4 = self.items@;
            self.items.push(it);
            assert(item_views(kept@)[k as int] == kept@[k as int]@);
            assert(item_views(self.items@) =~= item_views(b4).push(it@));
            assert(item_views(kept@).take(k + 1) =~= item_views(kept@).take(k as int).push(
                kept@[k as int]@,
            ));
            k = k + 1;
        }
        assert(item_views(kept@).take(kept.len() as int) =~= item_views(kept@));
        let mut m: usize = 0;
        while m < claims_kept.len()
            invariant
                self.text == old(self).text,
                self.chunks == old(self).chunks,
                self.document_length_chars == old(self).document_length_chars,
                self.next_chunk == old(self).next_chunk + 1,
                self.any_parse_failed == flags.0,
                self.any_ungrounded == flags.1,
                item_views(self.items@) == old_items + item_views(kept@),
                string_views(self.summaries@) == old_summaries.push(summary@),
                m <= claims_kept.len(),
                string_views(self.claims@) == old_claims + string_views(claims_kept@).take(m as int),
            decreases claims_kept.len() - m,
        {
            let c = string_of(&chars_of(&claims_kept[m]));
            let ghost b4 = self.claims@;
            self.claims.push(c);
            assert(string_views(claims_kept@)[m as int] == claims_kept@[m as int]@);
            assert(string_views(self.claims@) =~= string_views(b4).push(c@));
            assert(string_views(claims_kept@).take(m + 1) =~= string_views(claims_kept@).take(
                m as int,
            ).push(claims_kept@[m as int]@));
            m = m + 1;
        }
        assert(string_views(claims_kept@).take(claims_kept.len() as int) =~= string_views(
            claims_kept@,
        ));
    }
}

/// The statements of each item, in order, as claims.
pub open spec fn item_claims(v: Seq<ItemView>) -> Seq<Seq<char>>
    decreases v.len(),
{
    if v.len() == 0 {
        seq![]
    } else {
        item_claims(v.drop_last()).push(v.last().0).push(v.last().1)
    }
}

/// The report of an analysis that could not be trusted.
pub open spec fn is_failed_report(r: ContradictionReport, len: usize, chunked: bool) -> bool {
    &&& r.summary@ == ANALYSIS_FAILED_UZ@
    &&& r.contradictions@.len() == 0
    &&& r.document_length_chars == len
    &&& r.was_chunked == chunked
    &&& r.analysis_failed
}

fn failed_report(len: usize, chunked: bool) -> (r: ContradictionReport)
    ensures
        is_failed_report(r, len, chunked),
{
    ContradictionReport {
        summary: string_of(&chars_of(ANALYSIS_FAILED_UZ)),
        contradictions: Vec::new(),
        document_length_chars: len,
        was_chunked: chunked,
        analysis_failed: true,
    }
}

/// What is left after all chunks were answered: the findings so far, and the
/// claims for the reconciliation pass.
pub struct PendingReport {
    pub text: String,
    pub chunk_count: usize,
    pub document_length_chars: usize,
    pub summaries: Vec<String>,
    pub any_parse_failed: bool,
    pub claims: Vec<String>,
    pub found: Vec<ContradictionItem>,
}

/// Outcome of the per-chunk phase.
pub enum ChunkConclusion {
    Report(ContradictionReport),
    Pending(PendingReport),
}

fn copy_items(src: &Vec<ContradictionItem>, dst: &mut Vec<ContradictionItem>)
    ensures
        item_views(final(dst)@) == item_views(old(dst)@) + item_views(src@),
{
    let ghost base = item_views(dst@);
    let mut k: usize = 0;
    while k < src.len()
        invariant
            k <= src.len(),
            item_views(dst@) == base + item_views(src@).take(k as int),
        decreases src.len() - k,
    {
        let it = ContradictionItem {
            statement_a: string_of(&chars_of(&src[k].statement_a)),
            statement_b: string_of(&chars_of(&src[k].statement_b)),
            explanation: string_of(&chars_of(&src[k].explanation)),
        };
        let ghost b4 = dst@;
        dst.push(it);
        assert(item_views(src@)[k as int] == src@[k as int]@);
        assert(item_views(dst@) =~= item_views(b4).push(it@));
        assert(item_views(src@).take(k + 1) =~= item_views(src@).take(k as int).push(src@[k as int]@));
        k = k + 1;
    }
    assert(item_views(src@).take(src.len() as int) =~= item_views(src@));
}

impl AnalysisSession {
    /// Ends the per-chunk phase.  A single-chunk analysis whose answer failed
    /// or was ungrounded, with nothing found, reports failure; otherwise the
    /// findings are de-duplicated and the claims (with the quotes of the
    /// findings appended) de-duplicated to at most 48.
    pub fn conclude(self) -> (r: ChunkConclusion)
        ensures
            !was_chunked(&self) && self.items@.len() == 0 && (self.any_parse_failed
                || self.any_ungrounded) ==> (r matches ChunkConclusion::Report(rep)
                && is_failed_report(rep, self.document_length_chars, false)),
            !(!was_chunked(&self) && self.items@.len() == 0 && (self.any_parse_failed
                || self.any_ungrounded)) ==> (r matches ChunkConclusion::Pending(p) && {
                &&& p.text@ == self.text@
                &&& p.chunk_count == self.chunks@.len()
                &&& p.document_length_chars == self.document_length_chars
                &&& string_views(p.summaries@) == string_views(self.summaries@)
                &&& p.any_parse_failed == self.any_parse_failed
                &&& string_views(p.claims@) == crate::grounding::spec_dedupe_strings(
                    string_views(self.claims@) + item_claims(item_views(self.items@)),
                    MAX_RECONCILE_CLAIMS,
                )
                &&& item_views(p.found@) == spec_dedupe(item_views(self.items@))
            }),
    {
        let chunked = self.chunks.len() > 1;
        if !chunked && self.items.len() == 0 && (self.any_parse_failed || self.any_ungrounded) {
            return ChunkConclusion::Report(failed_report(self.document_length_chars, false));
        }
        let AnalysisSession { text, chunks, document_length_chars, items, claims, summaries, any_parse_failed, .. } = self;
        let mut all_claims = claims;
        let ghost base = string_views(all_claims@);
        let ghost iv = item_views(items@);
        let mut k: usize = 0;
        while k < items.len()
            invariant
                k <= items.len(),
                iv == item_views(items@),
                string_views(all_claims@) == base + item_claims(iv.take(k as int)),
            decreases items.len() - k,
        {
            assert(iv.take(k + 1).drop_last() =~= iv.take(k as int));
            assert(iv[k as int] == items@[k as int]@);
            let a = string_of(&chars_of(&items[k].statement_a));
            let b = string_of(&chars_of(&items[k].statement_b));
            let ghost b4 = string_views(all_claims@);
            all_claims.push(a);
            all_claims.push(b);
            assert(string_views(all_claims@) =~= b4.push(a@).push(b@));
            k = k + 1;
        }
        assert(iv.take(items.len() as int) =~= iv);
        let unique = crate::grounding::dedupe_strings(all_claims, MAX_RECONCILE_CLAIMS);
        let found = dedupe_contradictions(items);
        ChunkConclusion::Pending(
            PendingReport {
                text,
                chunk_count: chunks.len(),
                document_length_chars,
                summaries,
                any_parse_failed,
                claims: unique,
                found,
            },
        )
    }
}

/// `"{i}. {claim}"` lines for `i` from `from + 1`.
pub open spec fn claims_lines(claims: Seq<Seq<char>>, from: nat) -> Seq<Seq<char>>
    decreases claims.len(),
{
    if claims.len() == 0 {
        seq![]
    } else {
        seq![decimal(from + 1) + ". "@ + claims[0]] + claims_lines(claims.drop_first(), from + 1)
    }
}

/// `"{i}. A: {a} || B: {b} || why: {e}"` lines for `i` from `from + 1`.
pub open spec fn found_lines(items: Seq<ItemView>, from: nat) -> Seq<Seq<char>>
    decreases items.len(),
{
    if items.len() == 0 {
        seq![]
    } else {
        seq![decimal(from + 1) + ". A: "@ + items[0].0 + " || B: "@ + items[0].1 + " || why: "@ + items[0].2]
            + found_lines(items.drop_first(), from + 1)
    }
}

/// The user message of the reconciliation pass.
pub open spec fn spec_reconcile_user_message(claims: Seq<Seq<char>>, found: Seq<ItemView>) -> Seq<char> {
    let claims_block = join(claims_lines(claims, 0), "\n"@);
    let existing_block = if found.len() == 0 {
        "(none yet)"@
    } else {
        join(found_lines(found, 0), "\n"@)
    };
    "CLAIMS (from all chunks):\n"@ + claims_block + "\n\nALREADY FLAGGED (may include duplicates):\n"@
        + existing_block
        + "\n\nReturn JSON with any ADDITIONAL cross-claim contradictions. Skip duplicates of ALREADY FLAGGED."@
}

/// The found contradictions after reconciliation: with the extra findings,
/// de-duplicated, then grounded in the whole document; on a failed pass only
/// grounded.
pub open spec fn spec_reconciled(found: Seq<ItemView>, answer: Option<Result<Seq<char>, Seq<char>>>, text: Seq<char>) -> Seq<ItemView> {
    let g = crate::grounding::grounded_view(text);
    match answer {
        None => spec_dedupe(found).filter(g),
        Some(Err(_)) => found.filter(g),
        Some(Ok(raw)) => match spec_parse_chunk_analysis(raw) {
            None => found.filter(g),
            Some(p) => spec_dedupe(found + p.1.filter(g)).filter(g),
        },
    }
}

/// The final summary: the single answer's summary, a merged-sections note, or
/// a found / not-found sentence; the chunking disclaimer when chunked.
pub open spec fn spec_final_summary(summaries: Seq<Seq<char>>, found_any: bool, chunk_count: nat) -> Seq<char> {
    let base = if summaries.len() == 0 {
        if found_any {
            FOUND_UZ@
        } else {
            NONE_FOUND_UZ@
        }
    } else if summaries.len() == 1 {
        summaries[0]
    } else {
        decimal(chunk_count) + MERGED_SUMMARY_TAIL@
    };
    if chunk_count > 1 {
        base + CHUNK_DISCLAIMER_UZ@
    } else {
        base
    }
}

fn join_lines(lines: &Vec<Vec<char>>) -> (r: Vec<char>)
    ensures
        r@ == join(views(lines@), "\n"@),
{
    assert(seq!['\n'] =~= "\n"@) by {
        reveal_strlit("\n");
    }
    assert(views(lines@).subrange(0, lines@.len() as int) =~= views(lines@));
    crate::text::join_words(lines, 0, lines.len(), '\n')
}

impl PendingReport {
    /// The prompts of the reconciliation pass, which runs for a chunked
    /// document with at least two claims.
    pub fn reconcile_prompts(&self) -> (r: Option<(String, String)>)
        ensures
            self.chunk_count <= 1 || self.claims@.len() < 2 ==> r is None,
            self.chunk_count > 1 && self.claims@.len() >= 2 ==> (r matches Some(p) && p.0@
                == RECONCILE_SYSTEM@ && p.1@ == spec_reconcile_user_message(
                string_views(self.claims@),
                item_views(self.found@),
            )),
    {
        if self.chunk_count <= 1 || self.claims.len() < 2 {
            return None;
        }
        let ghost cv = string_views(self.claims@);
        let mut lines: Vec<Vec<char>> = Vec::new();
        let mut i: usize = 0;
        assert(cv.skip(0) =~= cv);
        assert(views(lines@) =~= Seq::<Seq<char>>::empty());
        while i < self.claims.len()
            invariant
                i <= self.claims.len(),
                cv == string_views(self.claims@),
                views(lines@) + claims_lines(cv.skip(i as int), i as nat) == claims_lines(cv, 0),
            decreases self.claims.len() - i,
        {
            let mut line: Vec<char> = Vec::new();
            push_decimal(&mut line, (i as u64) + 1);
            extend_str(&mut line, ". ");
            extend_str(&mut line, &self.claims[i]);
            let ghost b4 = views(lines@);
            lines.push(line);
            assert(cv.skip(i as int)[0] == cv[i as int]);
            assert(cv.skip(i as int).drop_first() =~= cv.skip(i + 1));
            assert(views(lines@) =~= b4.push(line@));
            assert(views(lines@) + claims_lines(cv.skip(i + 1), (i + 1) as nat) =~= b4 + claims_lines(
                cv.skip(i as int),
                i as nat,
            ));
            i = i + 1;
        }
        assert(cv.skip(i as int).len() == 0);
        assert(views(lines@) =~= claims_lines(cv, 0));
        let claims_block = join_lines(&lines);
        let ghost fv = item_views(self.found@);
        let mut existing: Vec<char> = Vec::new();
        if self.found.len() == 0 {
            extend_str(&mut existing, "(none yet)");
        } else {
            let mut flines: Vec<Vec<char>> = Vec::new();
            let mut j: usize = 0;
            assert(fv.skip(0) =~= fv);
            assert(views(flines@) =~= Seq::<Seq<char>>::empty());
            while j < self.found.len()
                invariant
                    j <= self.found.len(),
                    fv == item_views(self.found@),
                    views(flines@) + found_lines(fv.skip(j as int), j as nat) == found_lines(fv, 0),
                decreases self.found.len() - j,
            {
                let mut line: Vec<char> = Vec::new();
                push_decimal(&mut line, (j as u64) + 1);
                extend_str(&mut line, ". A: ");
                extend_str(&mut line, &self.found[j].statement_a);
                extend_str(&mut line, " || B: ");
                extend_str(&mut line, &self.found[j].statement_b);
                extend_str(&mut line, " || why: ");
                extend_str(&mut line, &self.found[j].explanation);
                let ghost b4 = views(flines@);
                flines.push(line);
                assert(fv.skip(j as int)[0] == fv[j as int]);
                assert(fv[j as int] == self.found@[j as int]@);
                assert(fv.skip(j as int).drop_first() =~= fv.skip(j + 1));
                assert(views(flines@) =~= b4.push(line@));
                assert(views(flines@) + found_lines(fv.skip(j + 1), (j + 1) as nat) =~= b4
                    + found_lines(fv.skip(j as int), j as nat));
                j = j + 1;
            }
            assert(fv.skip(j as int).len() == 0);
            assert(views(flines@) =~= found_lines(fv, 0));
            existing = join_lines(&flines);
        }
        let mut user: Vec<char> = Vec::new();
        extend_str(&mut user, "CLAIMS (from all chunks):\n");
        extend_chars(&mut user, &claims_block);
        extend_str(&mut user, "\n\nALREADY FLAGGED (may include duplicates):\n");
        extend_chars(&mut user, &existing);
        extend_str(
            &mut user,
            "\n\nReturn JSON with any ADDITIONAL cross-claim contradictions. Skip duplicates of ALREADY FLAGGED.",
        );
        assert(user@ =~= spec_reconcile_user_message(cv, fv));
        Some((string_of(&chars_of(RECONCILE_SYSTEM)), string_of(&user)))
    }

    /// Applies the reconciliation answer: `None` when no pass ran (fewer than
    /// two claims), `Some(Err)` when the model call failed, `Some(Ok(raw))`
    /// with the model's answer.  For a chunked document the result is grounded
    /// in the whole document; a single chunk is left as it is.
    pub fn apply_reconciliation(&mut self, answer: Option<Result<String, String>>)
        ensures
            old(self).chunk_count <= 1 ==> item_views(final(self).found@) == item_views(old(self).found@),
            final(self).text == old(self).text,
            final(self).chunk_count == old(self).chunk_count,
            final(self).document_length_chars == old(self).document_length_chars,
            final(self).summaries == old(self).summaries,
            final(self).any_parse_failed == old(self).any_parse_failed,
            final(self).claims == old(self).claims,
            old(self).chunk_count > 1 ==> item_views(final(self).found@) == spec_reconciled(
                item_views(old(self).found@),
                match answer {
                    None => None,
                    Some(Ok(raw)) => Some(Ok(raw@)),
                    Some(Err(e)) => Some(Err(e@)),
                },
                old(self).text@,
            ),
    {
        if self.chunk_count <= 1 {
            return;
        }
        let mut found: Vec<ContradictionItem> = Vec::new();
        std::mem::swap(&mut found, &mut self.found);
        let ghost fv = item_views(found@);
        let text: &str = &self.text;
        let result = match answer {
            None => {
                let d = dedupe_contradictions(found);
                filter_grounded_contradictions(d, text)
            },
            Some(Err(_)) => filter_grounded_contradictions(found, text),
            Some(Ok(raw)) => match parse_chunk_analysis(&raw) {
                None => filter_grounded_contradictions(found, text),
                Some(p) => {
                    let extra = filter_grounded_contradictions(p.contradictions, text);
                    let mut all = found;
                    copy_items(&extra, &mut all);
                    let d = dedupe_contradictions(all);
                    filter_grounded_contradictions(d, text)
                },
            },
        };
        self.found = result;
    }

    /// The final report.  Nothing found, a failed answer and no summary make a
    /// failed report.
    pub fn finish(self) -> (r: ContradictionReport)
        ensures
            self.found@.len() == 0 && self.any_parse_failed && self.summaries@.len() == 0 ==> is_failed_report(
                r,
                self.document_length_chars,
                self.chunk_count > 1,
            ),
            !(self.found@.len() == 0 && self.any_parse_failed && self.summaries@.len() == 0) ==> {
                &&& r.summary@ == spec_final_summary(
                    string_views(self.summaries@),
                    self.found@.len() > 0,
                    self.chunk_count as nat,
                )
                &&& item_views(r.contradictions@) == item_views(self.found@)
                &&& r.document_length_chars == self.document_length_chars
                &&& r.was_chunked == (self.chunk_count > 1)
                &&& !r.analysis_failed
            },
    {
        let chunked = self.chunk_count > 1;
        if self.found.len() == 0 && self.any_parse_failed && self.summaries.len() == 0 {
            return failed_report(self.document_length_chars, chunked);
        }
        let ghost sv = string_views(self.summaries@);
        let mut summary: Vec<char> = Vec::new();
        if self.summaries.len() == 0 {
            if self.found.len() == 0 {
                extend_str(&mut summary, NONE_FOUND_UZ);
            } else {
                extend_str(&mut summary, FOUND_UZ);
            }
        } else if self.summaries.len() == 1 {
            extend_str(&mut summary, &self.summaries[0]);
            assert(sv[0] == self.summaries@[0]@);
        } else {
            push_decimal(&mut summary, self.chunk_count as u64);
            extend_str(&mut summary, MERGED_SUMMARY_TAIL);
        }
        if chunked {
            extend_str(&mut summary, CHUNK_DISCLAIMER_UZ);
        }
        assert(summary@ =~= spec_final_summary(sv, self.found@.len() > 0, self.chunk_count as nat));
        ContradictionReport {
            summary: string_of(&summary),
            contradictions: self.found,
            document_length_chars: self.document_length_chars,
            was_chunked: chunked,
            analysis_failed: false,
        }
    }
}

/// Law: every contradiction kept after reconciliation is meaningful and has
/// both statements quoted from the whole document.
pub proof fn law_reconciled_findings_grounded(found: Seq<ItemView>, answer: Option<Result<Seq<char>, Seq<char>>>, text: Seq<char>)
    ensures
        forall|i: int|
            0 <= i < spec_reconciled(found, answer, text).len() ==> crate::grounding::spec_grounded(
                #[trigger] spec_reconciled(found, answer, text)[i],
                text,
            ),
{
    let g = crate::grounding::grounded_view(text);
    let r = spec_reconciled(found, answer, text);
    assert forall|i: int| 0 <= i < r.len() implies crate::grounding::spec_grounded(#[trigger] r[i], text) by {
        match answer {
            None => {
                spec_dedupe(found).lemma_filter_pred(g, i);
            },
            Some(Err(_)) => {
                found.lemma_filter_pred(g, i);
            },
            Some(Ok(raw)) => match spec_parse_chunk_analysis(raw) {
                None => {
                    found.lemma_filter_pred(g, i);
                },
                Some(p) => {
                    spec_dedupe(found + p.1.filter(g)).lemma_filter_pred(g, i);
                },
            },
        }
    }
}

/// Law: the contradictions an answer contributes to a chunk are each meaningful
/// and quoted from that chunk.
pub proof fn law_chunk_findings_grounded(raw: Seq<char>, chunk: Seq<char>)
    ensures
        spec_parse_chunk_analysis(raw) matches Some(p) ==> forall|i: int|
            0 <= i < p.1.filter(crate::grounding::grounded_view(chunk)).len()
                ==> crate::grounding::spec_grounded(
                #[trigger] p.1.filter(crate::grounding::grounded_view(chunk))[i],
                chunk,
            ),
{
    if let Some(p) = spec_parse_chunk_analysis(raw) {
        assert forall|i: int| 0 <= i < p.1.filter(crate::grounding::grounded_view(chunk)).len()
            implies crate::grounding::spec_grounded(
            #[trigger] p.1.filter(crate::grounding::grounded_view(chunk))[i],
            chunk,
        ) by {
            p.1.lemma_filter_pred(crate::grounding::grounded_view(chunk), i);
        }
    }
}


/// Law: a document that fits one chunk is analysed as its trimmed text, and
/// the findings kept from that chunk (each grounded in it, as
/// `record_chunk_answer` keeps them) are, once de-duplicated by `conclude`,
/// meaningful, free of near-duplicates and quoted from the whole document.
pub proof fn law_single_chunk_findings_grounded(
    text: Seq<char>,
    max_chars: int,
    overlap_chars: int,
    items: Seq<ItemView>,
)
    requires
        0 < trim(text).len() <= crate::document_text::effective_max(max_chars),
        forall|i: int|
            0 <= i < items.len() ==> crate::grounding::spec_grounded(
                #[trigger] items[i],
                crate::document_text::spec_chunk_text(text, max_chars, overlap_chars)[0],
            ),
    ensures
        crate::document_text::spec_chunk_text(text, max_chars, overlap_chars) == seq![trim(text)],
        crate::grounding::deduped(spec_dedupe(items)),
        forall|i: int|
            0 <= i < spec_dedupe(items).len() ==> crate::grounding::spec_grounded(
                #[trigger] spec_dedupe(items)[i],
                text,
            ),
{
    let d = spec_dedupe(items);
    crate::grounding::law_dedupe_result(items);
    assert forall|i: int| 0 <= i < d.len() implies crate::grounding::spec_grounded(#[trigger] d[i], text) by {
        let k = choose|k: int| 0 <= k < items.len() && items[k] == d[i];
        assert(crate::grounding::spec_grounded(items[k], trim(text)));
        crate::grounding::lemma_quote_in_trim(d[i].0, text);
        crate::grounding::lemma_quote_in_trim(d[i].1, text);
    }
}


/// Both statements of a contradiction element are non-blank strings.
pub open spec fn both_statements_present(x: JsonValue) -> bool {
    trim(json_str_field(x, "statement_a"@, "statementA"@)).len() > 0 && trim(
        json_str_field(x, "statement_b"@, "statementB"@),
    ).len() > 0
}

proof fn lemma_items_from_json(arr: Seq<JsonValue>)
    ensures
        items_from_json(arr) == arr.filter(|x: JsonValue| both_statements_present(x)).map_values(
            |x: JsonValue|
                (
                    json_str_field(x, "statement_a"@, "statementA"@),
                    json_str_field(x, "statement_b"@, "statementB"@),
                    json_str_field(x, "explanation"@, "explanation"@),
                ),
        ),
    decreases arr.len(),
{
    reveal(Seq::filter);
    if arr.len() > 0 {
        lemma_items_from_json(arr.drop_last());
    }
    assert(items_from_json(arr) =~= arr.filter(|x: JsonValue| both_statements_present(x)).map_values(
        |x: JsonValue|
            (
                json_str_field(x, "statement_a"@, "statementA"@),
                json_str_field(x, "statement_b"@, "statementB"@),
                json_str_field(x, "explanation"@, "explanation"@),
            ),
    ));
}

/// Law: the contradictions of a parsed analysis are exactly the elements of
/// its `contradictions` array whose two statements are non-blank strings, in
/// order, each read as (statement A, statement B, explanation); so every
/// returned contradiction has two non-blank statements.
pub proof fn law_parsed_contradictions(v: JsonValue)
    ensures
        spec_chunk_parse(v) matches Some(p) ==> {
            &&& json_get(v, "contradictions"@) matches Some(JsonValue::Array(arr)) && p.1
                == arr@.filter(|x: JsonValue| both_statements_present(x)).map_values(
                |x: JsonValue|
                    (
                        json_str_field(x, "statement_a"@, "statementA"@),
                        json_str_field(x, "statement_b"@, "statementB"@),
                        json_str_field(x, "explanation"@, "explanation"@),
                    ),
            )
            &&& forall|i: int|
                0 <= i < p.1.len() ==> trim((#[trigger] p.1[i]).0).len() > 0 && trim(p.1[i].1).len()
                    > 0
        },
{
    if let Some(p) = spec_chunk_parse(v) {
        if let Some(JsonValue::Array(arr)) = json_get(v, "contradictions"@) {
            lemma_items_from_json(arr@);
            let f = |x: JsonValue| both_statements_present(x);
            assert forall|i: int| 0 <= i < p.1.len() implies trim((#[trigger] p.1[i]).0).len() > 0
                && trim(p.1[i].1).len() > 0 by {
                arr@.lemma_filter_pred(f, i);
            }
        }
    }
}

} // verus!
