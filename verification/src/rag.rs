//! Retrieval-augmented answers: the answer-language rule, the offline
//! language detector and the system prompt built around retrieved articles.

use vstd::prelude::*;

use crate::models::LanguagePreference;
use crate::text::{
    chars_of, contains_chars, contains_seq, extend_str, join, lemma_join_push, str_to_lowercase,
    spec_str_to_lowercase, string_of, trim, trim_str, views, words, words_of,
};

verus! {

// ---------------------------------------------------------------------------
// Language detection.
// ---------------------------------------------------------------------------

/// A character of the Cyrillic block U+0400..U+04FF.
pub open spec fn is_cyrillic(c: char) -> bool {
    '\u{0400}' <= c <= '\u{04FF}'
}

/// An ASCII letter.
pub open spec fn is_ascii_letter(c: char) -> bool {
    ('a' <= c <= 'z') || ('A' <= c <= 'Z')
}

/// How many characters of `s` are Cyrillic.
pub open spec fn count_cyrillic(s: Seq<char>) -> nat
    decreases s.len(),
{
    if s.len() == 0 {
        0
    } else {
        count_cyrillic(s.drop_last()) + if is_cyrillic(s.last()) {
            1nat
        } else {
            0nat
        }
    }
}

/// How many characters of `s` are ASCII letters.
pub open spec fn count_latin(s: Seq<char>) -> nat
    decreases s.len(),
{
    if s.len() == 0 {
        0
    } else {
        count_latin(s.drop_last()) + if is_ascii_letter(s.last()) {
            1nat
        } else {
            0nat
        }
    }
}

/// 1 when `b` holds, else 0.
pub open spec fn one_if(b: bool) -> nat {
    if b {
        1
    } else {
        0
    }
}

/// Russian stopwords found anywhere in the lower-cased text.
pub open spec fn ru_hits(lower: Seq<char>) -> nat {
    one_if(contains_seq(lower, "что"@)) + one_if(contains_seq(lower, "это"@)) + one_if(
        contains_seq(lower, "как"@),
    ) + one_if(contains_seq(lower, "или"@)) + one_if(contains_seq(lower, "для"@)) + one_if(
        contains_seq(lower, "при"@),
    ) + one_if(contains_seq(lower, "права"@)) + one_if(contains_seq(lower, "договор"@))
}

/// English stopwords found as whole whitespace-separated words.
pub open spec fn en_hits(lower: Seq<char>) -> nat {
    let ws = words(lower);
    one_if(ws.contains("the"@)) + one_if(ws.contains("and"@)) + one_if(ws.contains("what"@))
        + one_if(ws.contains("which"@)) + one_if(ws.contains("contract"@)) + one_if(
        ws.contains("labor"@),
    ) + one_if(ws.contains("rights"@))
}

/// Uzbek stopwords found anywhere in the lower-cased text.
pub open spec fn uz_hits(lower: Seq<char>) -> nat {
    one_if(contains_seq(lower, "nima"@)) + one_if(contains_seq(lower, "qanday"@)) + one_if(
        contains_seq(lower, "uchun"@),
    ) + one_if(contains_seq(lower, "boʻyicha"@)) + one_if(contains_seq(lower, "boyicha"@))
        + one_if(contains_seq(lower, "modda"@)) + one_if(contains_seq(lower, "kodeks"@)) + one_if(
        contains_seq(lower, "shartnoma"@),
    ) + one_if(contains_seq(lower, "mehnat"@))
}

/// The detected language of an already lower-cased text: Russian when
/// Cyrillic outnumbers Latin or two Russian stopwords occur; English when two
/// English words occur and more than Uzbek ones; Uzbek otherwise.
pub open spec fn spec_detect_lower(lower: Seq<char>) -> Seq<char> {
    if count_cyrillic(lower) > count_latin(lower) || ru_hits(lower) >= 2 {
        "ru"@
    } else if en_hits(lower) >= 2 && en_hits(lower) > uz_hits(lower) {
        "en"@
    } else {
        "uz"@
    }
}

/// The detected language of `text`.
pub open spec fn spec_detect_language(text: Seq<char>) -> Seq<char> {
    spec_detect_lower(spec_str_to_lowercase(text))
}

fn count_scripts(s: &Vec<char>) -> (r: (usize, usize))
    ensures
        r.0 == count_cyrillic(s@),
        r.1 == count_latin(s@),
{
    let mut cyr: usize = 0;
    let mut lat: usize = 0;
    let mut i: usize = 0;
    while i < s.len()
        invariant
            i <= s.len(),
            cyr == count_cyrillic(s@.take(i as int)),
            lat == count_latin(s@.take(i as int)),
            cyr <= i,
            lat <= i,
        decreases s.len() - i,
    {
        let c = s[i];
        assert(s@.take(i + 1).drop_last() =~= s@.take(i as int));
        if '\u{0400}' <= c && c <= '\u{04FF}' {
            cyr = cyr + 1;
        }
        if ('a' <= c && c <= 'z') || ('A' <= c && c <= 'Z') {
            lat = lat + 1;
        }
        i = i + 1;
    }
    assert(s@.take(s.len() as int) =~= s@);
    (cyr, lat)
}

fn hit(hay: &Vec<char>, w: &str) -> (r: usize)
    ensures
        r == one_if(contains_seq(hay@, w@)),
{
    if contains_chars(hay, &chars_of(w)) {
        1
    } else {
        0
    }
}

fn has_word(ws: &Vec<Vec<char>>, w: &str) -> (r: bool)
    ensures
        r == views(ws@).contains(w@),
{
    let wv = chars_of(w);
    let mut i: usize = 0;
    while i < ws.len()
        invariant
            i <= ws.len(),
            wv@ == w@,
            forall|k: int| 0 <= k < i ==> views(ws@)[k] != w@,
        decreases ws.len() - i,
    {
        if crate::text::chars_eq(&ws[i], &wv) {
            assert(views(ws@)[i as int] == w@);
            return true;
        }
        i = i + 1;
    }
    false
}

fn word_hit(ws: &Vec<Vec<char>>, w: &str) -> (r: usize)
    ensures
        r == one_if(views(ws@).contains(w@)),
{
    if has_word(ws, w) {
        1
    } else {
        0
    }
}

/// Lightweight offline detector: `"ru"`, `"en"` or `"uz"`.
pub fn detect_language(text: &str) -> (r: &'static str)
    ensures
        r@ == spec_detect_language(text@),
        r@ == "ru"@ || r@ == "en"@ || r@ == "uz"@,
{
    let lower_s = str_to_lowercase(text);
    let lower = chars_of(&lower_s);
    let (cyr, lat) = count_scripts(&lower);
    let ru = hit(&lower, "что") + hit(&lower, "это") + hit(&lower, "как") + hit(&lower, "или")
        + hit(&lower, "для") + hit(&lower, "при") + hit(&lower, "права") + hit(&lower, "договор");
    let ws = words_of(&lower);
    let en = word_hit(&ws, "the") + word_hit(&ws, "and") + word_hit(&ws, "what") + word_hit(
        &ws,
        "which",
    ) + word_hit(&ws, "contract") + word_hit(&ws, "labor") + word_hit(&ws, "rights");
    let uz = hit(&lower, "nima") + hit(&lower, "qanday") + hit(&lower, "uchun") + hit(
        &lower,
        "boʻyicha",
    ) + hit(&lower, "boyicha") + hit(&lower, "modda") + hit(&lower, "kodeks") + hit(
        &lower,
        "shartnoma",
    ) + hit(&lower, "mehnat");
    if cyr > lat || ru >= 2 {
        "ru"
    } else if en >= 2 && en > uz {
        "en"
    } else {
        "uz"
    }
}

// ---------------------------------------------------------------------------
// Prompts.
// ---------------------------------------------------------------------------

pub const UZ_INSTRUCTION: &'static str = "Always respond in Uzbek (Latin script), regardless of the question language.";

pub const RU_INSTRUCTION: &'static str = "Always respond in Russian, regardless of the question language.";

pub const EN_INSTRUCTION: &'static str = "Always respond in English, regardless of the question language.";

pub const AUTO_INSTRUCTION_HEAD: &'static str = "Match the user's language (detected: ";

pub const AUTO_INSTRUCTION_TAIL: &'static str = "). Respond in that language.";

/// The answer-language rule of the system prompt.
pub open spec fn spec_language_instruction(pref: LanguagePreference, question: Seq<char>) -> Seq<char> {
    match pref {
        LanguagePreference::Uz => UZ_INSTRUCTION@,
        LanguagePreference::Ru => RU_INSTRUCTION@,
        LanguagePreference::En => EN_INSTRUCTION@,
        LanguagePreference::Auto => AUTO_INSTRUCTION_HEAD@ + spec_detect_language(question)
            + AUTO_INSTRUCTION_TAIL@,
    }
}

/// The answer-language rule for the preference and the question.
pub fn language_instruction(pref: LanguagePreference, question: &str) -> (r: String)
    ensures
        r@ == spec_language_instruction(pref, question@),
{
    let mut v: Vec<char> = Vec::new();
    match pref {
        LanguagePreference::Uz => extend_str(&mut v, UZ_INSTRUCTION),
        LanguagePreference::Ru => extend_str(&mut v, RU_INSTRUCTION),
        LanguagePreference::En => extend_str(&mut v, EN_INSTRUCTION),
        LanguagePreference::Auto => {
            extend_str(&mut v, AUTO_INSTRUCTION_HEAD);
            extend_str(&mut v, detect_language(question));
            extend_str(&mut v, AUTO_INSTRUCTION_TAIL);
        },
    }
    assert(v@ =~= spec_language_instruction(pref, question@));
    string_of(&v)
}

/// One retrieved article, as the prompt shows it.
pub struct LegalContext {
    pub id: String,
    pub text: String,
    pub law_name: String,
    pub article_number: String,
    pub chapter: String,
    pub section_title: String,
}

/// How one article is shown in the prompt.
pub open spec fn spec_context_entry(c: LegalContext) -> Seq<char> {
    "["@ + c.law_name@ + " — Art. "@ + c.article_number@ + "]\nChapter: "@ + c.chapter@
        + "\nSection: "@ + c.section_title@ + "\n"@ + c.text@
}

/// The entries of the articles, in order.
pub open spec fn context_entries(cs: Seq<LegalContext>) -> Seq<Seq<char>> {
    Seq::new(cs.len(), |i: int| spec_context_entry(cs[i]))
}

pub const NO_CONTEXT: &'static str = "(No relevant legislation was retrieved for this question.)";

pub const CONTEXT_SEPARATOR: &'static str = "\n\n---\n\n";

pub const RAG_PROMPT_HEAD: &'static str = "You are Faqih AI, an offline legal assistant for Uzbekistan legislation (Labor Code / Mehnat kodeksi and Civil Code / Fuqarolik kodeksi only).\n\nSTRICT RULES:\n1. Answer ONLY using the retrieved legislation below. Do not invent articles, numbers, or rules.\n2. Cite law name + article number for every legal claim (e.g. **Mehnat kodeksi, 126-modda**).\n3. If the retrieved text does not contain a relevant provision, say clearly that no relevant provision was found — never hallucinate.\n4. ";

pub const RAG_PROMPT_MID: &'static str = "\n5. Format with Markdown: short paragraphs, bullets for lists, **bold** for key terms and article numbers. Do NOT write one unbroken wall of text for answers longer than 2–3 sentences.\n\nRETRIEVED LEGISLATION:\n";

/// The system prompt of a legal question.
pub open spec fn spec_rag_system_prompt(
    pref: LanguagePreference,
    question: Seq<char>,
    contexts: Seq<LegalContext>,
) -> Seq<char> {
    let block = if contexts.len() == 0 {
        NO_CONTEXT@
    } else {
        join(context_entries(contexts), CONTEXT_SEPARATOR@)
    };
    RAG_PROMPT_HEAD@ + spec_language_instruction(pref, question) + RAG_PROMPT_MID@ + block
}

fn context_entry(c: &LegalContext) -> (r: Vec<char>)
    ensures
        r@ == spec_context_entry(*c),
{
    let mut v: Vec<char> = Vec::new();
    extend_str(&mut v, "[");
    extend_str(&mut v, &c.law_name);
    extend_str(&mut v, " — Art. ");
    extend_str(&mut v, &c.article_number);
    extend_str(&mut v, "]\nChapter: ");
    extend_str(&mut v, &c.chapter);
    extend_str(&mut v, "\nSection: ");
    extend_str(&mut v, &c.section_title);
    extend_str(&mut v, "\n");
    extend_str(&mut v, &c.text);
    assert(v@ =~= spec_context_entry(*c));
    v
}

/// The system prompt: the rules, the answer language and the retrieved
/// articles (or a note that none was found).
pub fn build_system_prompt(language: LanguagePreference, question: &str, contexts: &Vec<LegalContext>) -> (r: String)
    ensures
        r@ == spec_rag_system_prompt(language, question@, contexts@),
{
    let mut v: Vec<char> = Vec::new();
    extend_str(&mut v, RAG_PROMPT_HEAD);
    let li = language_instruction(language, question);
    extend_str(&mut v, &li);
    extend_str(&mut v, RAG_PROMPT_MID);
    let ghost head = v@;
    if contexts.len() == 0 {
        extend_str(&mut v, NO_CONTEXT);
    } else {
        let ghost es = context_entries(contexts@);
        let mut i: usize = 0;
        while i < contexts.len()
            invariant
                i <= contexts.len(),
                es == context_entries(contexts@),
                v@ == head + join(es.take(i as int), CONTEXT_SEPARATOR@),
            decreases contexts.len() - i,
        {
            proof {
                lemma_join_push(es.take(i as int), CONTEXT_SEPARATOR@, es[i as int]);
                assert(es.take(i + 1) =~= es.take(i as int).push(es[i as int]));
            }
            if i > 0 {
                extend_str(&mut v, CONTEXT_SEPARATOR);
            }
            let e = context_entry(&contexts[i]);
            crate::text::extend_chars(&mut v, &e);
            i = i + 1;
        }
        assert(es.take(contexts.len() as int) =~= es);
    }
    string_of(&v)
}

/// The user turn of a legal question: the question without surrounding
/// whitespace.
pub fn assemble_user_prompt(question: &str) -> (r: String)
    ensures
        r@ == trim(question@),
{
    string_of(&trim_str(question))
}


proof fn lemma_count_cyrillic_filter(s: Seq<char>)
    ensures
        count_cyrillic(s) == s.filter(|c: char| '\u{0400}' <= c && c <= '\u{04FF}').len(),
    decreases s.len(),
{
    reveal(Seq::filter);
    if s.len() > 0 {
        lemma_count_cyrillic_filter(s.drop_last());
    }
}

proof fn lemma_count_latin_filter(s: Seq<char>)
    ensures
        count_latin(s) == s.filter(|c: char| ('a' <= c && c <= 'z') || ('A' <= c && c <= 'Z')).len(),
    decreases s.len(),
{
    reveal(Seq::filter);
    if s.len() > 0 {
        lemma_count_latin_filter(s.drop_last());
    }
}

/// Law: a text whose lower-cased form has more Cyrillic letters (U+0400 to
/// U+04FF) than ASCII letters is Russian, whatever words it holds; so is a
/// text with any two of the Russian markers; and the answer is always one of
/// "ru", "en", "uz".
pub proof fn law_detect_language(text: Seq<char>)
    ensures
        ({
            let lower = spec_str_to_lowercase(text);
            lower.filter(|c: char| '\u{0400}' <= c && c <= '\u{04FF}').len() > lower.filter(
                |c: char| ('a' <= c && c <= 'z') || ('A' <= c && c <= 'Z'),
            ).len()
        }) ==> spec_detect_language(text) == "ru"@,
        ({
            let lower = spec_str_to_lowercase(text);
            let m = seq!["что"@, "это"@, "как"@, "или"@, "для"@, "при"@, "права"@, "договор"@];
            exists|i: int, j: int|
                0 <= i < j < m.len() && contains_seq(lower, #[trigger] m[i]) && contains_seq(
                    lower,
                    #[trigger] m[j],
                )
        }) ==> spec_detect_language(text) == "ru"@,
        spec_detect_language(text) == "ru"@ || spec_detect_language(text) == "en"@
            || spec_detect_language(text) == "uz"@,
{
    let lower = spec_str_to_lowercase(text);
    lemma_count_cyrillic_filter(lower);
    lemma_count_latin_filter(lower);
}


/// Law: a text with no Cyrillic letter and none of the Russian markers is
/// English when two of the English words occur as whole words and none of the
/// Uzbek markers occurs, and Uzbek when fewer than two English words occur.
pub proof fn law_detect_latin_text(text: Seq<char>)
    ensures
        ({
            let lower = spec_str_to_lowercase(text);
            let ru = seq!["что"@, "это"@, "как"@, "или"@, "для"@, "при"@, "права"@, "договор"@];
            let en = seq!["the"@, "and"@, "what"@, "which"@, "contract"@, "labor"@, "rights"@];
            let uz = seq![
                "nima"@,
                "qanday"@,
                "uchun"@,
                "boʻyicha"@,
                "boyicha"@,
                "modda"@,
                "kodeks"@,
                "shartnoma"@,
                "mehnat"@,
            ];
            let plain = lower.filter(|c: char| '\u{0400}' <= c && c <= '\u{04FF}').len() == 0
                && (forall|i: int| 0 <= i < ru.len() ==> !contains_seq(lower, #[trigger] ru[i]));
            &&& plain && (exists|i: int, j: int|
                0 <= i < j < en.len() && words(lower).contains(#[trigger] en[i]) && words(
                    lower,
                ).contains(#[trigger] en[j])) && (forall|i: int|
                0 <= i < uz.len() ==> !contains_seq(lower, #[trigger] uz[i])) ==> spec_detect_language(text)
                == "en"@
            &&& plain && (forall|i: int, j: int|
                0 <= i < j < en.len() ==> !(words(lower).contains(#[trigger] en[i]) && words(
                    lower,
                ).contains(#[trigger] en[j]))) ==> spec_detect_language(text) == "uz"@
        }),
{
    let lower = spec_str_to_lowercase(text);
    lemma_count_cyrillic_filter(lower);
    let ru = seq!["что"@, "это"@, "как"@, "или"@, "для"@, "при"@, "права"@, "договор"@];
    let en = seq!["the"@, "and"@, "what"@, "which"@, "contract"@, "labor"@, "rights"@];
    let uz = seq![
        "nima"@,
        "qanday"@,
        "uchun"@,
        "boʻyicha"@,
        "boyicha"@,
        "modda"@,
        "kodeks"@,
        "shartnoma"@,
        "mehnat"@,
    ];
    if forall|i: int| 0 <= i < ru.len() ==> !contains_seq(lower, #[trigger] ru[i]) {
        assert(!contains_seq(lower, ru[0]) && !contains_seq(lower, ru[1]) && !contains_seq(lower, ru[2])
            && !contains_seq(lower, ru[3]) && !contains_seq(lower, ru[4]) && !contains_seq(lower, ru[5])
            && !contains_seq(lower, ru[6]) && !contains_seq(lower, ru[7]));
    }
    if forall|i: int| 0 <= i < uz.len() ==> !contains_seq(lower, #[trigger] uz[i]) {
        assert(!contains_seq(lower, uz[0]) && !contains_seq(lower, uz[1]) && !contains_seq(lower, uz[2])
            && !contains_seq(lower, uz[3]) && !contains_seq(lower, uz[4]) && !contains_seq(lower, uz[5])
            && !contains_seq(lower, uz[6]) && !contains_seq(lower, uz[7]) && !contains_seq(lower, uz[8]));
    }
    if forall|i: int, j: int|
        0 <= i < j < en.len() ==> !(words(lower).contains(#[trigger] en[i]) && words(lower).contains(
            #[trigger] en[j],
        )) {
        assert(en_hits(lower) < 2) by {
            let w = words(lower);
            assert(!(w.contains(en[0]) && w.contains(en[1])));
            assert(!(w.contains(en[0]) && w.contains(en[2])));
            assert(!(w.contains(en[0]) && w.contains(en[3])));
            assert(!(w.contains(en[0]) && w.contains(en[4])));
            assert(!(w.contains(en[0]) && w.contains(en[5])));
            assert(!(w.contains(en[0]) && w.contains(en[6])));
            assert(!(w.contains(en[1]) && w.contains(en[2])));
            assert(!(w.contains(en[1]) && w.contains(en[3])));
            assert(!(w.contains(en[1]) && w.contains(en[4])));
            assert(!(w.contains(en[1]) && w.contains(en[5])));
            assert(!(w.contains(en[1]) && w.contains(en[6])));
            assert(!(w.contains(en[2]) && w.contains(en[3])));
            assert(!(w.contains(en[2]) && w.contains(en[4])));
            assert(!(w.contains(en[2]) && w.contains(en[5])));
            assert(!(w.contains(en[2]) && w.contains(en[6])));
            assert(!(w.contains(en[3]) && w.contains(en[4])));
            assert(!(w.contains(en[3]) && w.contains(en[5])));
            assert(!(w.contains(en[3]) && w.contains(en[6])));
            assert(!(w.contains(en[4]) && w.contains(en[5])));
            assert(!(w.contains(en[4]) && w.contains(en[6])));
            assert(!(w.contains(en[5]) && w.contains(en[6])));
        }
    }
}

} // verus!
