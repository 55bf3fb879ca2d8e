//! Document text: sentence/paragraph-aware chunking with overlap, and the text
//! extraction steps that compute on data already read.

use vstd::prelude::*;

use crate::text::{
    all_words_clean, contains_seq, is_trimmed, trim_end, trim_start, words,
    chars_eq, extend_chars, extend_str, replace_all, replace_str,
    chars_of, collapse, collapse_chars, is_whitespace, is_ws, join, join_words, spec_char_is_numeric,
    spec_char_is_uppercase, char_is_numeric, char_is_uppercase, string_of, string_views, trim,
    trim_chars, views, flat_words, lemma_flat_words_concat, lemma_flat_words_single,
    lemma_words_after_blank, lemma_words_blank, lemma_words_blank_prefix, lemma_words_collapse,
    lemma_words_concat, lemma_words_trim, ws_scan,
};

verus! {

// ---------------------------------------------------------------------------
// Regular expressions (the `regex` crate).
// ---------------------------------------------------------------------------

/// What `Regex::new(pattern)` followed by `split(text)` yields: the pieces, or
/// the compile error's text.
pub uninterp spec fn spec_regex_split(pattern: Seq<char>, text: Seq<char>) -> Result<
    Seq<Seq<char>>,
    Seq<char>,
>;

/// Compiles `pattern` with `regex::Regex::new` and splits `text` at its matches
/// (`Regex::split`).  The matching semantics are only named.
#[verifier::external_body]
fn regex_split(pattern: &str, text: &str) -> (r: Result<Vec<String>, String>)
    ensures
        match r {
            Ok(v) => spec_regex_split(pattern@, text@) == Ok::<Seq<Seq<char>>, Seq<char>>(
                string_views(v@),
            ),
            Err(e) => spec_regex_split(pattern@, text@) == Err::<Seq<Seq<char>>, Seq<char>>(e@),
        },
{
    match regex::Regex::new(pattern) {
        Ok(re) => Ok(re.split(text).map(|p| p.to_string()).collect()),
        Err(e) => Err(e.to_string()),
    }
}

/// What `Regex::new(pattern)` then `captures_iter(text)` yields: group 1 of
/// each match (`None` where it took no part), or the compile error's text.
pub uninterp spec fn spec_regex_group1(pattern: Seq<char>, text: Seq<char>) -> Result<
    Seq<Option<Seq<char>>>,
    Seq<char>,
>;

/// The views of optional strings.
pub open spec fn opt_string_views(v: Seq<Option<String>>) -> Seq<Option<Seq<char>>> {
    Seq::new(v.len(), |i: int| v[i].deep_view())
}

/// Compiles `pattern` with `regex::Regex::new` and collects group 1 of every
/// match of `captures_iter(text)`.  The matching semantics are only named.
#[verifier::external_body]
fn regex_group1(pattern: &str, text: &str) -> (r: Result<Vec<Option<String>>, String>)
    ensures
        match r {
            Ok(v) => spec_regex_group1(pattern@, text@) == Ok::<
                Seq<Option<Seq<char>>>,
                Seq<char>,
            >(opt_string_views(v@)),
            Err(e) => spec_regex_group1(pattern@, text@) == Err::<Seq<Option<Seq<char>>>, Seq<char>>(
                e@,
            ),
        },
{
    match regex::Regex::new(pattern) {
        Ok(re) => Ok(re.captures_iter(text).map(|c| c.get(1).map(|m| m.as_str().to_string())).collect()),
        Err(e) => Err(e.to_string()),
    }
}

/// What `Regex::new(pattern)` then `replace_all(text, rep)` yields, or the
/// compile error's text.
pub uninterp spec fn spec_regex_replace_all(pattern: Seq<char>, text: Seq<char>, rep: Seq<char>) -> Result<
    Seq<char>,
    Seq<char>,
>;

/// Compiles `pattern` with `regex::Regex::new` and replaces every match in
/// `text` with `rep` (`Regex::replace_all`).  The matching semantics are only
/// named.
#[verifier::external_body]
fn regex_replace_all(pattern: &str, text: &str, rep: &str) -> (r: Result<String, String>)
    ensures
        match r {
            Ok(t) => spec_regex_replace_all(pattern@, text@, rep@) == Ok::<Seq<char>, Seq<char>>(t@),
            Err(e) => spec_regex_replace_all(pattern@, text@, rep@) == Err::<Seq<char>, Seq<char>>(e@),
        },
{
    match regex::Regex::new(pattern) {
        Ok(re) => Ok(re.replace_all(text, rep).into_owned()),
        Err(e) => Err(e.to_string()),
    }
}

// ---------------------------------------------------------------------------
// Text of a document whose bytes were read by the caller.
// ---------------------------------------------------------------------------

/// The kinds of documents that can be analysed.
#[derive(Debug, Clone, Copy, PartialEq, Eq, Structural)]
pub enum DocumentKind {
    Pdf,
    Docx,
    PlainText,
}

/// ASCII letters lower-cased, everything else kept (`str::to_ascii_lowercase`).
pub open spec fn ascii_lower(s: Seq<char>) -> Seq<char> {
    Seq::new(
        s.len(),
        |i: int|
            if 'A' <= s[i] <= 'Z' {
                ((s[i] as u8) + 32) as char
            } else {
                s[i]
            },
    )
}

/// The kind of a document with file extension `ext`, or the refusal.
pub open spec fn spec_document_kind(ext: Seq<char>) -> Result<DocumentKind, Seq<char>> {
    let e = ascii_lower(ext);
    if e == "pdf"@ {
        Ok(DocumentKind::Pdf)
    } else if e == "docx"@ {
        Ok(DocumentKind::Docx)
    } else if e == "txt"@ || e == "md"@ {
        Ok(DocumentKind::PlainText)
    } else {
        Err("Unsupported file type '."@ + e + "'. Supported: pdf, docx, txt, md"@)
    }
}

fn ascii_lower_chars(s: &str) -> (r: Vec<char>)
    ensures
        r@ == ascii_lower(s@),
{
    let v = chars_of(s);
    let mut out: Vec<char> = Vec::new();
    let mut i: usize = 0;
    while i < v.len()
        invariant
            i <= v@.len(),
            v@ == s@,
            out@ == ascii_lower(s@).take(i as int),
        decreases v@.len() - i,
    {
        let c = v[i];
        let d = if 'A' <= c && c <= 'Z' {
            ((c as u8) + 32) as char
        } else {
            c
        };
        out.push(d);
        assert(out@ =~= ascii_lower(s@).take(i + 1));
        i = i + 1;
    }
    assert(out@ =~= ascii_lower(s@));
    out
}

/// Classifies a document by its file extension (case-insensitive): pdf,
/// docx, txt or md.
pub fn document_kind(ext: &str) -> (r: Result<DocumentKind, String>)
    ensures
        match r {
            Ok(k) => spec_document_kind(ext@) == Ok::<DocumentKind, Seq<char>>(k),
            Err(m) => spec_document_kind(ext@) == Err::<DocumentKind, Seq<char>>(m@),
        },
{
    let e = ascii_lower_chars(ext);
    if chars_eq(&e, &chars_of("pdf")) {
        return Ok(DocumentKind::Pdf);
    }
    if chars_eq(&e, &chars_of("docx")) {
        return Ok(DocumentKind::Docx);
    }
    if chars_eq(&e, &chars_of("txt")) || chars_eq(&e, &chars_of("md")) {
        return Ok(DocumentKind::PlainText);
    }
    let mut m: Vec<char> = Vec::new();
    extend_str(&mut m, "Unsupported file type '.");
    extend_chars(&mut m, &e);
    extend_str(&mut m, "'. Supported: pdf, docx, txt, md");
    Err(string_of(&m))
}

/// The refusal of a path that does not exist.
pub fn file_not_found(display: &str) -> (r: String)
    ensures
        r@ == "File not found: "@ + display@,
{
    let mut m: Vec<char> = Vec::new();
    extend_str(&mut m, "File not found: ");
    extend_str(&mut m, display);
    string_of(&m)
}

/// `s` with the five predefined XML entities decoded, `&amp;` after `&lt;`
/// and `&gt;`.
pub open spec fn decode_entities(s: Seq<char>) -> Seq<char> {
    replace_all(
        replace_all(
            replace_all(replace_all(replace_all(s, "&lt;"@, "<"@), "&gt;"@, ">"@), "&amp;"@, "&"@),
            "&quot;"@,
            "\""@,
        ),
        "&apos;"@,
        "'"@,
    )
}

/// Decodes the predefined XML entities of `s`.
pub fn decode_xml_entities(s: &str) -> (r: String)
    ensures
        r@ == decode_entities(s@),
{
    proof {
        reveal_strlit("&lt;");
        reveal_strlit("&gt;");
        reveal_strlit("&amp;");
        reveal_strlit("&quot;");
        reveal_strlit("&apos;");
    }
    let a = replace_str(s, "&lt;", "<");
    let b = replace_str(&a, "&gt;", ">");
    let c = replace_str(&b, "&amp;", "&");
    let d = replace_str(&c, "&quot;", "\"");
    replace_str(&d, "&apos;", "'")
}

/// The text runs of a DOCX body, decoded.
pub open spec fn decoded_groups(groups: Seq<Option<Seq<char>>>) -> Seq<Seq<char>>
    decreases groups.len(),
{
    if groups.len() == 0 {
        seq![]
    } else {
        let prev = decoded_groups(groups.drop_last());
        match groups.last() {
            Some(g) => prev.push(decode_entities(g)),
            None => prev,
        }
    }
}

/// Pattern of a DOCX text run; group 1 is its text.
pub open spec fn text_run_pattern() -> Seq<char> {
    "<w:t[^>]*>(.*?)</w:t>"@
}

/// Pattern of any XML tag.
pub open spec fn tag_pattern() -> Seq<char> {
    "<[^>]+>"@
}

/// The text of `word/document.xml`: the text runs joined by spaces, or (when
/// there are none) the XML with its tags replaced by spaces; entities decoded
/// and whitespace collapsed.
pub open spec fn spec_docx_text(xml: Seq<char>) -> Result<Seq<char>, Seq<char>> {
    match spec_regex_group1(text_run_pattern(), xml) {
        Err(e) => Err(e),
        Ok(gs) => {
            let parts = decoded_groups(gs);
            if parts.len() == 0 {
                match spec_regex_replace_all(tag_pattern(), xml, " "@) {
                    Err(e) => Err(e),
                    Ok(stripped) => Ok(collapse(decode_entities(stripped))),
                }
            } else {
                Ok(collapse(join(parts, seq![' '])))
            }
        },
    }
}

/// The step of reading a DOCX archive that failed.
#[derive(Clone, Copy, Debug, PartialEq, Eq, Structural)]
pub enum DocxStep {
    /// The bytes are not a readable zip archive.
    Open,
    /// The archive has no `word/document.xml`.
    Find,
    /// The entry could not be read as UTF-8 text.
    Read,
}

/// What the zip reader gives for `word/document.xml` of an archive held in
/// memory: its text, or the failing step with the reader's error message.
pub uninterp spec fn spec_docx_body(bytes: Seq<u8>) -> Result<Seq<char>, (DocxStep, Seq<char>)>;

/// Reads `word/document.xml` out of a DOCX archive held in memory, with
/// `zip::ZipArchive::new`, `ZipArchive::by_name` and `Read::read_to_string`.
/// The contract claims only that the outcome is a function of the bytes
/// (named [`spec_docx_body`]); the zip format itself is not stated.
#[verifier::external_body]
fn docx_body(bytes: &[u8]) -> (r: Result<String, (DocxStep, String)>)
    ensures
        match r {
            Ok(x) => spec_docx_body(bytes@) == Ok::<Seq<char>, (DocxStep, Seq<char>)>(x@),
            Err((st, e)) => spec_docx_body(bytes@) == Err::<Seq<char>, (DocxStep, Seq<char>)>((st, e@)),
        },
{
    let mut archive = match zip::ZipArchive::new(std::io::Cursor::new(bytes)) {
        Ok(a) => a,
        Err(e) => return Err((DocxStep::Open, e.to_string())),
    };
    let mut document = match archive.by_name("word/document.xml") {
        Ok(d) => d,
        Err(e) => return Err((DocxStep::Find, e.to_string())),
    };
    let mut xml = String::new();
    match std::io::Read::read_to_string(&mut document, &mut xml) {
        Ok(_) => Ok(xml),
        Err(e) => Err((DocxStep::Read, e.to_string())),
    }
}

/// The text of a DOCX file from its bytes: a missing `word/document.xml` is
/// reported as an invalid DOCX, other read errors as the reader words them.
pub open spec fn spec_docx_text_from_bytes(bytes: Seq<u8>) -> Result<Seq<char>, Seq<char>> {
    match spec_docx_body(bytes) {
        Ok(xml) => spec_docx_text(xml),
        Err((DocxStep::Find, e)) => Err("Invalid DOCX (missing word/document.xml): "@ + e),
        Err((_, e)) => Err(e),
    }
}

/// The text of a DOCX file whose bytes were read (see [`spec_docx_text_from_bytes`]).
pub fn docx_text_from_bytes(bytes: &[u8]) -> (r: Result<String, String>)
    ensures
        match r {
            Ok(t) => spec_docx_text_from_bytes(bytes@) == Ok::<Seq<char>, Seq<char>>(t@),
            Err(e) => spec_docx_text_from_bytes(bytes@) == Err::<Seq<char>, Seq<char>>(e@),
        },
{
    match docx_body(bytes) {
        Ok(xml) => docx_xml_text(&xml),
        Err((DocxStep::Find, e)) => {
            let mut m: Vec<char> = Vec::new();
            extend_str(&mut m, "Invalid DOCX (missing word/document.xml): ");
            extend_str(&mut m, &e);
            Err(string_of(&m))
        },
        Err((_, e)) => Err(e),
    }
}

/// The text of a DOCX body whose `word/document.xml` was read.
pub fn docx_xml_text(xml: &str) -> (r: Result<String, String>)
    ensures
        match r {
            Ok(t) => spec_docx_text(xml@) == Ok::<Seq<char>, Seq<char>>(t@),
            Err(e) => spec_docx_text(xml@) == Err::<Seq<char>, Seq<char>>(e@),
        },
{
    let groups = match regex_group1("<w:t[^>]*>(.*?)</w:t>", xml) {
        Ok(g) => g,
        Err(e) => return Err(e),
    };
    let ghost gv = opt_string_views(groups@);
    let mut parts: Vec<Vec<char>> = Vec::new();
    let mut i: usize = 0;
    while i < groups.len()
        invariant
            i <= groups@.len(),
            gv == opt_string_views(groups@),
            views(parts@) == decoded_groups(gv.take(i as int)),
        decreases groups@.len() - i,
    {
        assert(gv.take(i + 1).drop_last() =~= gv.take(i as int));
        match &groups[i] {
            Some(g) => {
                let d = decode_xml_entities(g);
                let ghost b4 = views(parts@);
                parts.push(chars_of(&d));
                assert(views(parts@) =~= b4.push(decode_entities(g@)));
            },
            None => {},
        }
        i = i + 1;
    }
    assert(gv.take(groups@.len() as int) =~= gv);
    if parts.len() == 0 {
        let stripped = match regex_replace_all("<[^>]+>", xml, " ") {
            Ok(t) => t,
            Err(e) => return Err(e),
        };
        let d = decode_xml_entities(&stripped);
        return Ok(crate::text::collapse_ws(&d));
    }
    assert(views(parts@).subrange(0, parts@.len() as int) =~= views(parts@));
    let joined = join_words(&parts, 0, parts.len(), ' ');
    let s = string_of(&joined);
    Ok(crate::text::collapse_ws(&s))
}

// ---------------------------------------------------------------------------
// Paragraphs.
// ---------------------------------------------------------------------------

/// Pattern of a paragraph break: a newline, optional whitespace, newlines.
pub open spec fn paragraph_pattern() -> Seq<char> {
    "\\n\\s*\\n+"@
}

/// Left-to-right split of `s` at every `sep`: finished pieces and the current one.
pub open spec fn split_scan(s: Seq<char>, sep: char) -> (Seq<Seq<char>>, Seq<char>)
    decreases s.len(),
{
    if s.len() == 0 {
        (seq![], seq![])
    } else {
        let (done, cur) = split_scan(s.drop_last(), sep);
        if s.last() == sep {
            (done.push(cur), seq![])
        } else {
            (done, cur.push(s.last()))
        }
    }
}

/// The pieces of `s` between occurrences of `sep` (`str::split`).
pub open spec fn split_on(s: Seq<char>, sep: char) -> Seq<Seq<char>> {
    let (done, cur) = split_scan(s, sep);
    done.push(cur)
}

/// The pieces trimmed, empty ones dropped.
pub open spec fn clean_parts(parts: Seq<Seq<char>>) -> Seq<Seq<char>>
    decreases parts.len(),
{
    if parts.len() == 0 {
        seq![]
    } else {
        let prev = clean_parts(parts.drop_last());
        if trim(parts.last()).len() > 0 {
            prev.push(trim(parts.last()))
        } else {
            prev
        }
    }
}

/// Paragraphs: blank-line separated blocks when there are several; else
/// non-empty lines when there are several; else the whole text.  A pattern
/// error counts as no blank-line split.
pub open spec fn spec_split_paragraphs(text: Seq<char>) -> Seq<Seq<char>> {
    let parts = match spec_regex_split(paragraph_pattern(), text) {
        Ok(p) => clean_parts(p),
        Err(_) => seq![],
    };
    if parts.len() > 1 {
        parts
    } else {
        let lines = clean_parts(split_on(text, '\n'));
        if lines.len() > 1 {
            lines
        } else {
            seq![text]
        }
    }
}

fn clean_part_push(out: &mut Vec<Vec<char>>, piece: &Vec<char>)
    ensures
        views(final(out)@) == (if trim(piece@).len() > 0 {
            views(old(out)@).push(trim(piece@))
        } else {
            views(old(out)@)
        }),
{
    let t = trim_chars(piece);
    if t.len() > 0 {
        let ghost before = out@;
        out.push(t);
        assert(views(out@) =~= views(before).push(trim(piece@)));
    }
}

fn clean_strings(parts: &Vec<String>) -> (r: Vec<Vec<char>>)
    ensures
        views(r@) == clean_parts(string_views(parts@)),
{
    let mut out: Vec<Vec<char>> = Vec::new();
    let mut i: usize = 0;
    let ghost sv = string_views(parts@);
    while i < parts.len()
        invariant
            i <= parts.len(),
            sv == string_views(parts@),
            views(out@) == clean_parts(sv.take(i as int)),
        decreases parts.len() - i,
    {
        assert(sv.take(i + 1).drop_last() =~= sv.take(i as int));
        let p = chars_of(&parts[i]);
        clean_part_push(&mut out, &p);
        i = i + 1;
    }
    assert(sv.take(parts.len() as int) =~= sv);
    out
}

fn clean_lines(text: &Vec<char>) -> (r: Vec<Vec<char>>)
    ensures
        views(r@) == clean_parts(split_on(text@, '\n')),
{
    let mut out: Vec<Vec<char>> = Vec::new();
    let mut cur: Vec<char> = Vec::new();
    let mut i: usize = 0;
    let ghost mut done: Seq<Seq<char>> = seq![];
    while i < text.len()
        invariant
            i <= text.len(),
            (done, cur@) == split_scan(text@.take(i as int), '\n'),
            views(out@) == clean_parts(done),
        decreases text.len() - i,
    {
        assert(text@.take(i + 1).drop_last() =~= text@.take(i as int));
        if text[i] == '\n' {
            proof {
                assert(done.push(cur@).drop_last() =~= done);
            }
            clean_part_push(&mut out, &cur);
            proof {
                done = done.push(cur@);
            }
            cur = Vec::new();
        } else {
            cur.push(text[i]);
        }
        i = i + 1;
    }
    assert(text@.take(text.len() as int) =~= text@);
    proof {
        assert(done.push(cur@).drop_last() =~= done);
    }
    clean_part_push(&mut out, &cur);
    out
}

/// Splits a text into paragraphs (see [`spec_split_paragraphs`]).
pub fn split_paragraphs(text: &Vec<char>) -> (r: Vec<Vec<char>>)
    ensures
        views(r@) == spec_split_paragraphs(text@),
{
    let s = string_of(text);
    let parts = match regex_split("\\n\\s*\\n+", &s) {
        Ok(p) => clean_strings(&p),
        Err(_) => Vec::new(),
    };
    if parts.len() > 1 {
        return parts;
    }
    let lines = clean_lines(text);
    if lines.len() > 1 {
        return lines;
    }
    let mut one: Vec<Vec<char>> = Vec::new();
    let mut copy: Vec<char> = Vec::new();
    crate::text::extend_chars(&mut copy, text);
    one.push(copy);
    assert(views(one@) =~= seq![text@]);
    one
}

// ---------------------------------------------------------------------------
// Sentences.
// ---------------------------------------------------------------------------

/// Sentence-ending punctuation.
pub open spec fn is_end_punct(c: char) -> bool {
    c == '.' || c == '!' || c == '?' || c == '\u{2026}'
}

/// Closing quotes that may follow sentence-ending punctuation.
pub open spec fn is_close_quote(c: char) -> bool {
    c == '"' || c == '\'' || c == '\u{201d}' || c == '\u{bb}'
}

/// A plausible first character of a sentence.
pub open spec fn starts_sentence(c: char) -> bool {
    spec_char_is_uppercase(c) || spec_char_is_numeric(c) || c == '(' || c == '[' || c == '\u{ab}'
        || c == '"'
}

/// First index at or after `j` that is not a closing quote.
pub open spec fn skip_quotes(s: Seq<char>, j: int) -> int
    decreases s.len() - j,
{
    if 0 <= j < s.len() && is_close_quote(s[j]) {
        skip_quotes(s, j + 1)
    } else {
        j
    }
}

/// First index at or after `k` that is not whitespace.
pub open spec fn skip_spaces(s: Seq<char>, k: int) -> int
    decreases s.len() - k,
{
    if 0 <= k < s.len() && is_ws(s[k]) {
        skip_spaces(s, k + 1)
    } else {
        k
    }
}

pub proof fn lemma_skip_quotes(s: Seq<char>, j: int)
    ensures
        skip_quotes(s, j) >= j,
        j >= 0 ==> skip_quotes(s, j) <= s.len() || skip_quotes(s, j) == j,
    decreases s.len() - j,
{
    if 0 <= j < s.len() && is_close_quote(s[j]) {
        lemma_skip_quotes(s, j + 1);
    }
}

pub proof fn lemma_skip_spaces(s: Seq<char>, k: int)
    ensures
        skip_spaces(s, k) >= k,
        k >= 0 ==> skip_spaces(s, k) <= s.len() || skip_spaces(s, k) == k,
    decreases s.len() - k,
{
    if 0 <= k < s.len() && is_ws(s[k]) {
        lemma_skip_spaces(s, k + 1);
    }
}

/// A sentence boundary at `i`: end punctuation, optional closing quotes ending
/// at `j`, whitespace up to `k`, and a plausible sentence start at `k`.
pub open spec fn boundary_at(s: Seq<char>, i: int) -> Option<(int, int)> {
    if 0 <= i < s.len() && is_end_punct(s[i]) {
        let j = skip_quotes(s, i + 1);
        if j < s.len() && is_ws(s[j]) {
            let k = skip_spaces(s, j);
            if k < s.len() && starts_sentence(s[k]) {
                Some((j, k))
            } else {
                None
            }
        } else {
            None
        }
    } else {
        None
    }
}

/// The trimmed text as a one-element list, or nothing when it is blank.
pub open spec fn nonblank(t: Seq<char>) -> Seq<Seq<char>> {
    if trim(t).len() > 0 {
        seq![trim(t)]
    } else {
        seq![]
    }
}

/// The sentences of `s` from the sentence start `start`, scanning from `i`.
pub open spec fn sentence_scan(s: Seq<char>, start: int, i: int) -> Seq<Seq<char>>
    decreases s.len() - i,
{
    if i < 0 || i >= s.len() {
        nonblank(s.subrange(start, s.len() as int))
    } else {
        match boundary_at(s, i) {
            Some((j, k)) => {
                proof {
                    lemma_skip_quotes(s, i + 1);
                    lemma_skip_spaces(s, j);
                }
                nonblank(s.subrange(start, j)) + sentence_scan(s, k, k)
            },
            None => sentence_scan(s, start, i + 1),
        }
    }
}

/// Sentence (or clause) units of a paragraph; the paragraph itself when none is found.
pub open spec fn spec_split_sentences(p: Seq<char>) -> Seq<Seq<char>> {
    if p.len() == 0 {
        seq![]
    } else {
        let out = sentence_scan(p, 0, 0);
        if out.len() == 0 {
            seq![p]
        } else {
            out
        }
    }
}

fn is_end_punct_exec(c: char) -> (b: bool)
    ensures
        b == is_end_punct(c),
{
    c == '.' || c == '!' || c == '?' || c == '\u{2026}'
}

fn is_close_quote_exec(c: char) -> (b: bool)
    ensures
        b == is_close_quote(c),
{
    c == '"' || c == '\'' || c == '\u{201d}' || c == '\u{bb}'
}

fn starts_sentence_exec(c: char) -> (b: bool)
    ensures
        b == starts_sentence(c),
{
    char_is_uppercase(c) || char_is_numeric(c) || c == '(' || c == '[' || c == '\u{ab}' || c == '"'
}

fn push_nonblank(out: &mut Vec<Vec<char>>, s: &Vec<char>, lo: usize, hi: usize)
    requires
        lo <= hi <= s.len(),
    ensures
        views(final(out)@) == views(old(out)@) + nonblank(s@.subrange(lo as int, hi as int)),
{
    let mut piece: Vec<char> = Vec::new();
    let mut k = lo;
    while k < hi
        invariant
            lo <= k <= hi <= s.len(),
            piece@ == s@.subrange(lo as int, k as int),
        decreases hi - k,
    {
        piece.push(s[k]);
        assert(s@.subrange(lo as int, k + 1) =~= s@.subrange(lo as int, k as int).push(s@[k as int]));
        k = k + 1;
    }
    let t = trim_chars(&piece);
    let ghost before = out@;
    if t.len() > 0 {
        out.push(t);
        assert(views(out@) =~= views(before) + nonblank(s@.subrange(lo as int, hi as int)));
    } else {
        assert(views(out@) =~= views(before) + nonblank(s@.subrange(lo as int, hi as int)));
    }
}

/// Splits a paragraph into sentence units (see [`spec_split_sentences`]).
pub fn split_sentences(p: &Vec<char>) -> (r: Vec<Vec<char>>)
    ensures
        views(r@) == spec_split_sentences(p@),
{
    if p.len() == 0 {
        return Vec::new();
    }
    let mut out: Vec<Vec<char>> = Vec::new();
    let mut start: usize = 0;
    let mut i: usize = 0;
    while i < p.len()
        invariant
            start <= i <= p.len(),
            sentence_scan(p@, 0, 0) == views(out@) + sentence_scan(p@, start as int, i as int),
        decreases p.len() - i,
    {
        let c = p[i];
        let mut advanced = false;
        if is_end_punct_exec(c) {
            let mut j = i + 1;
            while j < p.len() && is_close_quote_exec(p[j])
                invariant
                    i < j <= p.len(),
                    skip_quotes(p@, i + 1) == skip_quotes(p@, j as int),
                decreases p.len() - j,
            {
                j = j + 1;
            }
            if j < p.len() && is_whitespace(p[j]) {
                let mut k = j;
                while k < p.len() && is_whitespace(p[k])
                    invariant
                        j <= k <= p.len(),
                        skip_spaces(p@, j as int) == skip_spaces(p@, k as int),
                    decreases p.len() - k,
                {
                    k = k + 1;
                }
                if k < p.len() && starts_sentence_exec(p[k]) {
                    let ghost before = views(out@);
                    assert(boundary_at(p@, i as int) == Some((j as int, k as int)));
                    push_nonblank(&mut out, p, start, j);
                    assert(before + nonblank(p@.subrange(start as int, j as int)) + sentence_scan(
                        p@,
                        k as int,
                        k as int,
                    ) =~= before + (nonblank(p@.subrange(start as int, j as int))
                        + sentence_scan(p@, k as int, k as int)));
                    start = k;
                    i = k;
                    advanced = true;
                }
            }
        }
        if !advanced {
            i = i + 1;
        }
    }
    let ghost before = views(out@);
    push_nonblank(&mut out, p, start, p.len());
    if out.len() == 0 {
        let mut copy: Vec<char> = Vec::new();
        crate::text::extend_chars(&mut copy, p);
        out.push(copy);
        assert(views(out@) =~= seq![p@]);
    }
    out
}

// ---------------------------------------------------------------------------
// Units: collapsed, non-empty sentences of all paragraphs.
// ---------------------------------------------------------------------------

/// The collapsed, non-empty sentences.
pub open spec fn units_of_sentences(sents: Seq<Seq<char>>) -> Seq<Seq<char>>
    decreases sents.len(),
{
    if sents.len() == 0 {
        seq![]
    } else {
        let prev = units_of_sentences(sents.drop_last());
        if collapse(sents.last()).len() > 0 {
            prev.push(collapse(sents.last()))
        } else {
            prev
        }
    }
}

/// The units of every paragraph, in order.
pub open spec fn units_of_paragraphs(paras: Seq<Seq<char>>) -> Seq<Seq<char>>
    decreases paras.len(),
{
    if paras.len() == 0 {
        seq![]
    } else {
        units_of_paragraphs(paras.drop_last()) + units_of_sentences(
            spec_split_sentences(paras.last()),
        )
    }
}

/// Paragraph → sentence / numbered-clause units, whitespace collapsed.
pub open spec fn spec_split_into_units(text: Seq<char>) -> Seq<Seq<char>> {
    units_of_paragraphs(spec_split_paragraphs(text))
}

/// Splits a text into units (see [`spec_split_into_units`]).
pub fn split_into_units(text: &Vec<char>) -> (r: Vec<Vec<char>>)
    ensures
        views(r@) == spec_split_into_units(text@),
{
    let paras = split_paragraphs(text);
    let ghost pv = views(paras@);
    let mut units: Vec<Vec<char>> = Vec::new();
    let mut i: usize = 0;
    while i < paras.len()
        invariant
            i <= paras.len(),
            pv == views(paras@),
            pv == spec_split_paragraphs(text@),
            views(units@) == units_of_paragraphs(pv.take(i as int)),
        decreases paras.len() - i,
    {
        assert(pv.take(i + 1).drop_last() =~= pv.take(i as int));
        let sents = split_sentences(&paras[i]);
        let ghost sv = views(sents@);
        let ghost base = views(units@);
        let mut k: usize = 0;
        while k < sents.len()
            invariant
                k <= sents.len(),
                sv == views(sents@),
                views(units@) == base + units_of_sentences(sv.take(k as int)),
            decreases sents.len() - k,
        {
            assert(sv.take(k + 1).drop_last() =~= sv.take(k as int));
            let c = collapse_chars(&sents[k]);
            if c.len() > 0 {
                let ghost before = views(units@);
                units.push(c);
                assert(views(units@) =~= before.push(c@));
                assert(base + units_of_sentences(sv.take(k + 1)) =~= (base + units_of_sentences(
                    sv.take(k as int),
                )).push(c@));
            }
            k = k + 1;
        }
        assert(sv.take(sents.len() as int) =~= sv);
        i = i + 1;
    }
    assert(pv.take(paras.len() as int) =~= pv);
    units
}

// ---------------------------------------------------------------------------
// Chunking.
// ---------------------------------------------------------------------------

/// Fixed-size character windows of `c` from `start`, each `max` long (the last
/// possibly shorter), advancing by `step`.
pub open spec fn hard_from(c: Seq<char>, max: int, step: int, start: int) -> Seq<Seq<char>>
    decreases c.len() - start,
{
    if start < 0 || start >= c.len() || step <= 0 {
        seq![]
    } else {
        let end = if start + max < c.len() {
            start + max
        } else {
            c.len() as int
        };
        if end >= c.len() || start + step >= c.len() {
            seq![c.subrange(start, end)]
        } else {
            seq![c.subrange(start, end)] + hard_from(c, max, step, start + step)
        }
    }
}

/// `a - b` clamped at zero.
pub open spec fn sat_sub(a: int, b: int) -> int {
    if a >= b {
        a - b
    } else {
        0
    }
}

/// Plain character windows: the whole text when it fits, else windows of
/// `max` characters overlapping by `min(overlap, max / 2)`.
pub open spec fn spec_hard_chunks(c: Seq<char>, max: int, overlap: int) -> Seq<Seq<char>> {
    if c.len() <= max {
        seq![c]
    } else {
        let ov = if overlap < max / 2 {
            overlap
        } else {
            max / 2
        };
        let step = if sat_sub(max, ov) > 1 {
            sat_sub(max, ov)
        } else {
            1
        };
        hard_from(c, max, step, 0)
    }
}

/// Character windows of `c` (see [`spec_hard_chunks`]).
pub fn hard_char_chunks(c: &Vec<char>, max: usize, overlap: usize) -> (r: Vec<Vec<char>>)
    ensures
        views(r@) == spec_hard_chunks(c@, max as int, overlap as int),
{
    let mut out: Vec<Vec<char>> = Vec::new();
    if c.len() <= max {
        let mut copy: Vec<char> = Vec::new();
        crate::text::extend_chars(&mut copy, c);
        out.push(copy);
        assert(views(out@) =~= seq![c@]);
        return out;
    }
    let ov = if overlap < max / 2 {
        overlap
    } else {
        max / 2
    };
    let step = if max - ov > 1 {
        max - ov
    } else {
        1
    };
    let ghost total = hard_from(c@, max as int, step as int, 0);
    let mut start: usize = 0;
    while start < c.len()
        invariant
            step >= 1,
            step == 1 || step <= max,
            c.len() > max,
            total == hard_from(c@, max as int, step as int, 0),
            total == spec_hard_chunks(c@, max as int, overlap as int),
            total == views(out@) + hard_from(c@, max as int, step as int, start as int),
        decreases c.len() - start,
    {
        let end = if max < c.len() - start {
            start + max
        } else {
            c.len()
        };
        let mut piece: Vec<char> = Vec::new();
        let mut k = start;
        while k < end
            invariant
                start <= k <= end <= c.len(),
                piece@ == c@.subrange(start as int, k as int),
            decreases end - k,
        {
            piece.push(c[k]);
            assert(c@.subrange(start as int, k + 1) =~= c@.subrange(start as int, k as int).push(
                c@[k as int],
            ));
            k = k + 1;
        }
        let ghost before = views(out@);
        out.push(piece);
        assert(views(out@) =~= before.push(c@.subrange(start as int, end as int)));
        if end >= c.len() {
            assert(total =~= views(out@));
            return out;
        }
        assert(start + step <= c.len());
        if start + step >= c.len() {
            assert(total =~= views(out@));
            return out;
        }
        assert(total =~= views(out@) + hard_from(c@, max as int, step as int, start + step));
        start = start + step;
    }
    assert(hard_from(c@, max as int, step as int, start as int).len() == 0);
    assert(total =~= views(out@));
    out
}

/// Where the window starting at unit `start` ends, scanning from `end` with
/// `len` characters taken so far: `(end, len, oversized)`, `oversized` when the
/// first unit alone exceeds `max`.
pub open spec fn window_scan(u: Seq<Seq<char>>, max: int, start: int, end: int, len: int) -> (
    int,
    int,
    bool,
)
    decreases u.len() - end,
{
    if end < 0 || end >= u.len() {
        (end, len, false)
    } else {
        let ul = u[end].len() as int;
        let sep: int = if end > start {
            1
        } else {
            0
        };
        let next = len + sep + ul;
        if next > max && end > start {
            (end, len, false)
        } else if ul > max && end == start {
            (end, len, true)
        } else if next >= max {
            (end + 1, next, false)
        } else {
            window_scan(u, max, start, end + 1, next)
        }
    }
}

/// Walking back from `ns` over whole units (each with its separator) while
/// fewer than `overlap` characters are covered, not past `start`.
pub open spec fn back_off(u: Seq<Seq<char>>, overlap: int, start: int, ns: int, back: int) -> int
    decreases ns,
{
    if ns > start && back < overlap && ns > 0 {
        back_off(u, overlap, start, ns - 1, back + u[ns - 1].len() + 1)
    } else {
        ns
    }
}

/// Start of the next window after the window `start..end`: about `overlap`
/// characters back, always after `start` and at most `end`.
pub open spec fn next_window_start(u: Seq<Seq<char>>, overlap: int, start: int, end: int) -> int {
    let ns = back_off(u, overlap, start, end, 0);
    let ns2 = if ns <= start {
        start + 1
    } else {
        ns
    };
    if ns2 >= end {
        end
    } else {
        ns2
    }
}

/// The window pieces from unit `start` on.  An oversized unit is split into
/// character windows, and the windows go on with the unit after it.
pub open spec fn window_chunks(u: Seq<Seq<char>>, max: int, overlap: int, start: int) -> Seq<Seq<char>>
    decreases u.len() - start,
{
    if start < 0 || start >= u.len() {
        seq![]
    } else {
        let (end, len, over) = window_scan(u, max, start, start, 0);
        if over {
            spec_hard_chunks(u[start], max, overlap) + window_chunks(u, max, overlap, start + 1)
        } else {
            let piece = join(u.subrange(start, end), seq![' ']);
            if end <= start || end >= u.len() {
                seq![piece]
            } else {
                seq![piece] + window_chunks(u, max, overlap, next_window_start(u, overlap, start, end))
            }
        }
    }
}

proof fn lemma_window_scan_bounds(u: Seq<Seq<char>>, max: int, start: int, end: int, len: int)
    requires
        0 <= start <= end <= u.len(),
        0 <= len,
    ensures
        start <= window_scan(u, max, start, end, len).0 <= u.len(),
        window_scan(u, max, start, end, len).0 >= end,
    decreases u.len() - end,
{
    let ul = u[end].len() as int;
    if end < u.len() {
        let sep: int = if end > start {
            1
        } else {
            0
        };
        let next = len + sep + ul;
        if !(next > max && end > start) && !(ul > max && end == start) && next < max {
            lemma_window_scan_bounds(u, max, start, end + 1, next);
        }
    }
}

fn copy_chars(v: &Vec<char>) -> (r: Vec<char>)
    ensures
        r@ == v@,
{
    let mut r: Vec<char> = Vec::new();
    crate::text::extend_chars(&mut r, v);
    r
}

/// The window pieces of the units `u` (see [`window_chunks`]).
fn window_chunks_exec(u: &Vec<Vec<char>>, max: usize, overlap: usize) -> (r: Vec<Vec<char>>)
    requires
        max >= 1,
    ensures
        window_chunks(views(u@), max as int, overlap as int, 0) == views(r@),
{
    let ghost uv = views(u@);
    let ghost total = window_chunks(uv, max as int, overlap as int, 0);
    let mut out: Vec<Vec<char>> = Vec::new();
    let mut start: usize = 0;
    while start < u.len()
        invariant
            max >= 1,
            uv == views(u@),
            total == window_chunks(uv, max as int, overlap as int, 0),
            total == views(out@) + window_chunks(uv, max as int, overlap as int, start as int),
        decreases u.len() - start,
    {
        // Extend the window from `start` while it fits.
        let mut end = start;
        let mut len: usize = 0;
        let mut over = false;
        let mut scanning = true;
        while scanning
            invariant
                start < u.len(),
                start <= end <= u.len(),
                uv == views(u@),
                max >= 1,
                end == start ==> len == 0,
                scanning ==> len < max,
                scanning ==> !over,
                window_scan(uv, max as int, start as int, start as int, 0) == if scanning {
                    window_scan(uv, max as int, start as int, end as int, len as int)
                } else {
                    (end as int, len as int, over)
                },
            decreases u.len() - end, (if scanning { 1int } else { 0int }),
        {
            if end >= u.len() {
                scanning = false;
            } else {
                assert(uv[end as int] == u@[end as int]@);
                let ul = u[end].len();
                let sep: usize = if end > start {
                    1
                } else {
                    0
                };
                let next: u128 = len as u128 + sep as u128 + ul as u128;
                if next > max as u128 && end > start {
                    scanning = false;
                } else if ul > max && end == start {
                    over = true;
                    scanning = false;
                } else {
                    len = next as usize;
                    end = end + 1;
                    if len >= max {
                        scanning = false;
                    }
                }
            }
        }
        proof {
            lemma_window_scan_bounds(uv, max as int, start as int, start as int, 0);
            assert(uv.subrange(start as int, start as int) =~= Seq::<Seq<char>>::empty());
            lemma_window_scan_len(uv, max as int, start as int, start as int, 0);
        }
        if over {
            let hard = hard_char_chunks(&u[start], max, overlap);
            let ghost before = views(out@);
            let mut h: usize = 0;
            while h < hard.len()
                invariant
                    h <= hard.len(),
                    views(out@) == before + views(hard@).take(h as int),
                decreases hard.len() - h,
            {
                let piece = copy_chars(&hard[h]);
                assert(views(hard@)[h as int] == hard@[h as int]@);
                let ghost mid = out@;
                out.push(piece);
                assert(views(out@) =~= views(mid).push(piece@));
                assert(views(hard@).take(h + 1) =~= views(hard@).take(h as int).push(hard@[h as int]@));
                assert(views(out@) =~= before + views(hard@).take(h + 1));
                h = h + 1;
            }
            assert(views(hard@).take(hard.len() as int) =~= views(hard@));
            assert(views(out@) =~= before + spec_hard_chunks(uv[start as int], max as int, overlap as int));
            start = start + 1;
        } else {
            let piece = join_words(u, start, end, ' ');
            let ghost before = views(out@);
            out.push(piece);
            assert(views(out@) =~= before + seq![join(uv.subrange(start as int, end as int), seq![' '])]);
            if end >= u.len() {
                return out;
            }
            // Walk back about `overlap` characters for the next window.
            let mut ns = end;
            let mut back: u128 = 0;
            while ns > start && back < overlap as u128
                invariant
                    start <= ns <= end,
                    end <= u.len(),
                    uv == views(u@),
                    back <= 2 * (usize::MAX as u128) + 1,
                    back_off(uv, overlap as int, start as int, end as int, 0) == back_off(
                        uv,
                        overlap as int,
                        start as int,
                        ns as int,
                        back as int,
                    ),
                decreases ns,
            {
                ns = ns - 1;
                back = back + u[ns].len() as u128 + 1;
            }
            let mut new_start = ns;
            if new_start <= start {
                new_start = start + 1;
            }
            if new_start >= end {
                new_start = end;
            }
            start = new_start;
        }
    }
    assert(window_chunks(uv, max as int, overlap as int, start as int) == Seq::<Seq<char>>::empty());
    assert(views(out@) + Seq::<Seq<char>>::empty() =~= views(out@));
    out
}

/// Pieces trimmed; blank pieces and exact repeats of the previous kept piece dropped.
pub open spec fn clean_chunks(out: Seq<Seq<char>>) -> Seq<Seq<char>>
    decreases out.len(),
{
    if out.len() == 0 {
        seq![]
    } else {
        let prev = clean_chunks(out.drop_last());
        let c = trim(out.last());
        if c.len() == 0 || (prev.len() > 0 && prev.last() == c) {
            prev
        } else {
            prev.push(c)
        }
    }
}

/// The chunk budget actually used: at least 64 characters.
pub open spec fn effective_max(max_chars: int) -> int {
    if max_chars < 64 {
        64
    } else {
        max_chars
    }
}

/// The overlap actually used: at most half the budget and at most budget − 64.
pub open spec fn capped_overlap(overlap_chars: int, max: int) -> int {
    let a = if overlap_chars < max / 2 {
        overlap_chars
    } else {
        max / 2
    };
    let b = sat_sub(max, 64);
    if a < b {
        a
    } else {
        b
    }
}

/// Chunks of a document: nothing for blank text, the trimmed text when it fits
/// the budget, otherwise overlapping windows of whole units (sentences and
/// clauses), oversized units split by characters, cleaned.
pub open spec fn spec_chunk_text(text: Seq<char>, max_chars: int, overlap_chars: int) -> Seq<Seq<char>> {
    let m = effective_max(max_chars);
    let t = trim(text);
    if t.len() == 0 {
        seq![]
    } else if t.len() <= m {
        seq![t]
    } else {
        let u = spec_split_into_units(t);
        if u.len() == 0 {
            spec_hard_chunks(t, m, overlap_chars)
        } else {
            let ov = capped_overlap(overlap_chars, m);
            let c = clean_chunks(window_chunks(u, m, ov, 0));
            if c.len() == 0 {
                spec_hard_chunks(t, m, ov)
            } else {
                c
            }
        }
    }
}

fn clean_chunks_exec(out: &Vec<Vec<char>>) -> (r: Vec<Vec<char>>)
    ensures
        views(r@) == clean_chunks(views(out@)),
{
    let ghost ov = views(out@);
    let mut cleaned: Vec<Vec<char>> = Vec::new();
    let mut i: usize = 0;
    while i < out.len()
        invariant
            i <= out.len(),
            ov == views(out@),
            views(cleaned@) == clean_chunks(ov.take(i as int)),
        decreases out.len() - i,
    {
        assert(ov.take(i + 1).drop_last() =~= ov.take(i as int));
        assert(ov[i as int] == out@[i as int]@);
        let c = trim_chars(&out[i]);
        let n = cleaned.len();
        let skip = c.len() == 0 || (n > 0 && crate::text::chars_eq(&cleaned[n - 1], &c));
        if !skip {
            let ghost before = views(cleaned@);
            cleaned.push(c);
            assert(views(cleaned@) =~= before.push(c@));
        } else {
            proof {
                if n > 0 {
                    assert(views(cleaned@).last() == cleaned@[n - 1]@);
                }
            }
        }
        i = i + 1;
    }
    assert(ov.take(out.len() as int) =~= ov);
    cleaned
}

fn to_strings(v: &Vec<Vec<char>>) -> (r: Vec<String>)
    ensures
        string_views(r@) == views(v@),
{
    let mut r: Vec<String> = Vec::new();
    let mut i: usize = 0;
    while i < v.len()
        invariant
            i <= v.len(),
            string_views(r@) == views(v@).take(i as int),
        decreases v.len() - i,
    {
        let s = string_of(&v[i]);
        let ghost before = r@;
        r.push(s);
        assert(views(v@)[i as int] == v@[i as int]@);
        assert(string_views(r@) =~= string_views(before).push(s@));
        assert(views(v@).take(i + 1) =~= views(v@).take(i as int).push(v@[i as int]@));
        assert(string_views(r@) =~= views(v@).take(i + 1));
        i = i + 1;
    }
    assert(views(v@).take(v.len() as int) =~= views(v@));
    r
}

/// Chunks long documents with sentence/paragraph-aware boundaries and overlap
/// (see [`spec_chunk_text`]).
pub fn chunk_text(text: &str, max_chars: usize, overlap_chars: usize) -> (r: Vec<String>)
    ensures
        spec_chunk_text(text@, max_chars as int, overlap_chars as int) == string_views(r@),
{
    let max = if max_chars < 64 {
        64
    } else {
        max_chars
    };
    let v = chars_of(text);
    let t = trim_chars(&v);
    if t.len() == 0 {
        let none: Vec<String> = Vec::new();
        assert(string_views(none@) =~= Seq::<Seq<char>>::empty());
        return none;
    }
    if t.len() <= max {
        let mut one: Vec<String> = Vec::new();
        one.push(string_of(&t));
        assert(string_views(one@) =~= seq![t@]);
        return one;
    }
    let units = split_into_units(&t);
    if units.len() == 0 {
        let hard = hard_char_chunks(&t, max, overlap_chars);
        return to_strings(&hard);
    }
    let a = if overlap_chars < max / 2 {
        overlap_chars
    } else {
        max / 2
    };
    let b = max - 64;
    let overlap = if a < b {
        a
    } else {
        b
    };
    let out = window_chunks_exec(&units, max, overlap);
    let cleaned = clean_chunks_exec(&out);
    if cleaned.len() == 0 {
        let hard = hard_char_chunks(&t, max, overlap);
        return to_strings(&hard);
    }
    to_strings(&cleaned)
}

/// Recommended overlap for long-document analysis: a third of the chunk,
/// between 600 and 2500 characters.
pub fn recommended_chunk_overlap(max_chars: usize) -> (r: usize)
    ensures
        r == if max_chars / 3 < 600 {
            600
        } else if max_chars / 3 > 2500 {
            2500
        } else {
            max_chars / 3
        },
        600 <= r <= 2500,
{
    let third = max_chars / 3;
    if third < 600 {
        600
    } else if third > 2500 {
        2500
    } else {
        third
    }
}

// ---------------------------------------------------------------------------
// Laws of the chunker.
// ---------------------------------------------------------------------------

proof fn lemma_hard_from(c: Seq<char>, max: int, step: int, start: int)
    requires
        max >= 1,
        step >= 1,
        start >= 0,
    ensures
        forall|i: int|
            0 <= i < hard_from(c, max, step, start).len() ==> 0 < #[trigger] hard_from(
                c,
                max,
                step,
                start,
            )[i].len() <= max,
        start < c.len() ==> hard_from(c, max, step, start).len() > 0,
    decreases c.len() - start,
{
    if start < c.len() {
        let end = if start + max < c.len() {
            start + max
        } else {
            c.len() as int
        };
        if !(end >= c.len() || start + step >= c.len()) {
            lemma_hard_from(c, max, step, start + step);
            let h = hard_from(c, max, step, start);
            let rest = hard_from(c, max, step, start + step);
            assert forall|i: int| 0 <= i < h.len() implies 0 < #[trigger] h[i].len() <= max by {
                if i > 0 {
                    assert(h[i] == rest[i - 1]);
                }
            }
        }
    }
}

/// Plain character windows are non-empty and at most `max` long.
pub proof fn lemma_hard_chunks(c: Seq<char>, max: int, overlap: int)
    requires
        max >= 1,
        c.len() > 0,
    ensures
        spec_hard_chunks(c, max, overlap).len() > 0,
        forall|i: int|
            0 <= i < spec_hard_chunks(c, max, overlap).len() ==> 0 < #[trigger] spec_hard_chunks(
                c,
                max,
                overlap,
            )[i].len() <= max || (c.len() <= max && spec_hard_chunks(c, max, overlap)[i] == c),
{
    if c.len() > max {
        let ov = if overlap < max / 2 {
            overlap
        } else {
            max / 2
        };
        let step = if sat_sub(max, ov) > 1 {
            sat_sub(max, ov)
        } else {
            1
        };
        lemma_hard_from(c, max, step, 0);
    }
}

proof fn lemma_join_len_push(parts: Seq<Seq<char>>, p: Seq<char>)
    ensures
        join(parts.push(p), seq![' ']).len() as int == if parts.len() == 0 {
            p.len() as int
        } else {
            (join(parts, seq![' ']).len() + 1 + p.len()) as int
        },
{
    crate::text::lemma_join_push(parts, seq![' '], p);
}

proof fn lemma_window_scan_len(u: Seq<Seq<char>>, max: int, start: int, end: int, len: int)
    requires
        0 <= start <= end <= u.len(),
        len == join(u.subrange(start, end), seq![' ']).len(),
        end == start ==> len == 0,
        len <= max,
    ensures
        ({
            let (e, l, over) = window_scan(u, max, start, end, len);
            &&& !over ==> start <= e <= u.len() && l == join(u.subrange(start, e), seq![' ']).len()
                && l <= max && e >= end
            &&& !over && start < u.len() ==> e > start
            &&& over ==> e == start && u[start].len() > max
        }),
    decreases u.len() - end,
{
    if end < u.len() {
        let ul = u[end].len() as int;
        let sep: int = if end > start {
            1
        } else {
            0
        };
        let next = len + sep + ul;
        if next > max && end > start {
        } else if ul > max && end == start {
        } else {
            assert(u.subrange(start, end + 1) =~= u.subrange(start, end).push(u[end]));
            lemma_join_len_push(u.subrange(start, end), u[end]);
            if next < max {
                lemma_window_scan_len(u, max, start, end + 1, next);
            }
        }
    }
}

proof fn lemma_window_chunks_budget(u: Seq<Seq<char>>, max: int, overlap: int, start: int)
    requires
        max >= 1,
        start >= 0,
    ensures
        forall|i: int|
            0 <= i < window_chunks(u, max, overlap, start).len() ==> #[trigger] window_chunks(
                u,
                max,
                overlap,
                start,
            )[i].len() <= max,
    decreases u.len() - start,
{
    if start < u.len() {
        assert(u.subrange(start, start) =~= Seq::<Seq<char>>::empty());
        lemma_window_scan_len(u, max, start, start, 0);
        let (end, len, over) = window_scan(u, max, start, start, 0);
        let ps = window_chunks(u, max, overlap, start);
        if over {
            lemma_window_chunks_budget(u, max, overlap, start + 1);
            let h = spec_hard_chunks(u[start], max, overlap);
            let rest = window_chunks(u, max, overlap, start + 1);
            lemma_hard_chunks(u[start], max, overlap);
            assert forall|i: int| 0 <= i < ps.len() implies #[trigger] ps[i].len() <= max by {
                if i < h.len() {
                    assert(ps[i] == h[i]);
                } else {
                    assert(ps[i] == rest[i - h.len()]);
                }
            }
        } else if end < u.len() {
            let ns = next_window_start(u, overlap, start, end);
            lemma_window_chunks_budget(u, max, overlap, ns);
            let rest = window_chunks(u, max, overlap, ns);
            assert forall|i: int| 0 <= i < ps.len() implies #[trigger] ps[i].len() <= max by {
                if i > 0 {
                    assert(ps[i] == rest[i - 1]);
                }
            }
        }
    }
}

proof fn lemma_clean_chunks(out: Seq<Seq<char>>)
    ensures
        forall|i: int|
            0 <= i < clean_chunks(out).len() ==> #[trigger] clean_chunks(out)[i].len() > 0
                && exists|j: int| 0 <= j < out.len() && clean_chunks(out)[i] == trim(out[j]),
        forall|i: int|
            0 < i < clean_chunks(out).len() ==> clean_chunks(out)[i - 1] != #[trigger] clean_chunks(
                out,
            )[i],
    decreases out.len(),
{
    if out.len() > 0 {
        lemma_clean_chunks(out.drop_last());
        let prev = clean_chunks(out.drop_last());
        let cl = clean_chunks(out);
        assert forall|i: int| 0 <= i < cl.len() implies #[trigger] cl[i].len() > 0 && exists|j: int|
            0 <= j < out.len() && cl[i] == trim(out[j]) by {
            if i < prev.len() {
                assert(cl[i] == prev[i]);
                let j = choose|j: int| 0 <= j < out.drop_last().len() && prev[i] == trim(out.drop_last()[j]);
                assert(out.drop_last()[j] == out[j]);
            } else {
                assert(cl[i] == trim(out[out.len() - 1]));
            }
        }
        assert forall|i: int| 0 < i < cl.len() implies cl[i - 1] != #[trigger] cl[i] by {
            if i < prev.len() {
                assert(cl[i] == prev[i]);
                assert(cl[i - 1] == prev[i - 1]);
            }
        }
    }
}

/// Law: blank text has no chunks.
pub proof fn law_blank_text_has_no_chunks(text: Seq<char>, max_chars: int, overlap_chars: int)
    requires
        trim(text).len() == 0,
    ensures
        spec_chunk_text(text, max_chars, overlap_chars) == Seq::<Seq<char>>::empty(),
{
}

/// Law: a text that fits the budget (at least 64 characters) is one chunk,
/// the text trimmed.
pub proof fn law_short_text_is_one_chunk(text: Seq<char>, max_chars: int, overlap_chars: int)
    requires
        0 < trim(text).len() <= effective_max(max_chars),
    ensures
        spec_chunk_text(text, max_chars, overlap_chars) == seq![trim(text)],
{
}

/// Law: chunks are never empty, and a text has chunks exactly when it is not blank.
pub proof fn law_chunks_nonempty(text: Seq<char>, max_chars: int, overlap_chars: int)
    ensures
        ({
            let cs = spec_chunk_text(text, max_chars, overlap_chars);
            &&& (cs.len() == 0 <==> trim(text).len() == 0)
            &&& forall|i: int| 0 <= i < cs.len() ==> #[trigger] cs[i].len() > 0
        }),
{
    let m = effective_max(max_chars);
    let t = trim(text);
    if t.len() > m {
        let u = spec_split_into_units(t);
        if u.len() == 0 {
            lemma_hard_chunks(t, m, overlap_chars);
        } else {
            let ov = capped_overlap(overlap_chars, m);
            let out = window_chunks(u, m, ov, 0);
            let c = clean_chunks(out);
            lemma_clean_chunks(out);
            if c.len() == 0 {
                lemma_hard_chunks(t, m, ov);
            }
        }
    }
}

/// Law: every chunk has at most `max(max_chars, 64)` characters.
pub proof fn law_chunk_budget(text: Seq<char>, max_chars: int, overlap_chars: int)
    ensures
        forall|i: int|
            0 <= i < spec_chunk_text(text, max_chars, overlap_chars).len() ==> #[trigger] spec_chunk_text(
                text,
                max_chars,
                overlap_chars,
            )[i].len() <= effective_max(max_chars),
{
    let m = effective_max(max_chars);
    let t = trim(text);
    let cs = spec_chunk_text(text, max_chars, overlap_chars);
    if t.len() > m {
        let u = spec_split_into_units(t);
        if u.len() == 0 {
            lemma_hard_chunks(t, m, overlap_chars);
        } else {
            let ov = capped_overlap(overlap_chars, m);
            let out = window_chunks(u, m, ov, 0);
            let c = clean_chunks(out);
            lemma_clean_chunks(out);
            lemma_window_chunks_budget(u, m, ov, 0);
            if c.len() == 0 {
                lemma_hard_chunks(t, m, ov);
            } else {
                assert forall|i: int| 0 <= i < c.len() implies #[trigger] c[i].len() <= m by {
                    let j = choose|j: int| 0 <= j < out.len() && c[i] == trim(out[j]);
                    crate::text::lemma_trim_shape(out[j]);
                }
            }
        }
    } else if t.len() > 0 {
        assert(cs == seq![t]);
    }
}

/// Law: adjacent chunks differ.
pub proof fn law_adjacent_chunks_differ(text: Seq<char>, max_chars: int, overlap_chars: int)
    ensures
        forall|i: int|
            0 < i < spec_chunk_text(text, max_chars, overlap_chars).len() ==> spec_chunk_text(
                text,
                max_chars,
                overlap_chars,
            )[i - 1] != #[trigger] spec_chunk_text(text, max_chars, overlap_chars)[i],
{
    let m = effective_max(max_chars);
    let t = trim(text);
    if t.len() > m {
        lemma_windows_reached(text, max_chars, overlap_chars);
        let u = spec_split_into_units(t);
        let out = window_chunks(u, m, capped_overlap(overlap_chars, m), 0);
        lemma_clean_chunks(out);
    }
}

/// Law: every chunk is trimmed (it equals its own trim).
pub proof fn law_chunks_trimmed(text: Seq<char>, max_chars: int, overlap_chars: int)
    ensures
        forall|i: int|
            0 <= i < spec_chunk_text(text, max_chars, overlap_chars).len() ==> is_trimmed(
                #[trigger] spec_chunk_text(text, max_chars, overlap_chars)[i],
            ) && trim(spec_chunk_text(text, max_chars, overlap_chars)[i]) == spec_chunk_text(
                text,
                max_chars,
                overlap_chars,
            )[i],
{
    let m = effective_max(max_chars);
    let t = trim(text);
    let cs = spec_chunk_text(text, max_chars, overlap_chars);
    crate::text::lemma_trim_shape(text);
    if t.len() > 0 && t.len() <= m {
        assert(cs =~= seq![t]);
        lemma_trimmed_fixed(t);
    } else if t.len() > m {
        lemma_windows_reached(text, max_chars, overlap_chars);
        let u = spec_split_into_units(t);
        let out = window_chunks(u, m, capped_overlap(overlap_chars, m), 0);
        lemma_clean_chunks(out);
        assert forall|i: int| 0 <= i < cs.len() implies is_trimmed(#[trigger] cs[i]) && trim(cs[i])
            == cs[i] by {
            let j = choose|j: int| 0 <= j < out.len() && cs[i] == trim(out[j]);
            crate::text::lemma_trim_shape(out[j]);
            lemma_trimmed_fixed(cs[i]);
        }
    }
}

// ---------------------------------------------------------------------------
// No unit that fits the budget is lost between chunks.
// ---------------------------------------------------------------------------

/// Some piece of `pieces` contains `w` as a contiguous run.
pub open spec fn covers(pieces: Seq<Seq<char>>, w: Seq<char>) -> bool {
    exists|k: int| 0 <= k < pieces.len() && #[trigger] contains_seq(pieces[k], w)
}

proof fn lemma_contains_at(hay: Seq<char>, w: Seq<char>, i: int)
    requires
        0 <= i,
        i + w.len() <= hay.len(),
        hay.subrange(i, i + w.len()) == w,
    ensures
        contains_seq(hay, w),
{
}

proof fn lemma_contains_concat(a: Seq<char>, b: Seq<char>, w: Seq<char>)
    ensures
        contains_seq(a, w) ==> contains_seq(a + b, w),
        contains_seq(b, w) ==> contains_seq(a + b, w),
{
    if contains_seq(a, w) {
        let i = choose|i: int| 0 <= i && i + w.len() <= a.len() && #[trigger] a.subrange(i, i + w.len()) == w;
        assert((a + b).subrange(i, i + w.len()) =~= a.subrange(i, i + w.len()));
        lemma_contains_at(a + b, w, i);
    }
    if contains_seq(b, w) {
        let i = choose|i: int| 0 <= i && i + w.len() <= b.len() && #[trigger] b.subrange(i, i + w.len()) == w;
        let j = a.len() + i;
        assert((a + b).subrange(j, j + w.len()) =~= b.subrange(i, i + w.len()));
        lemma_contains_at(a + b, w, j);
    }
}

proof fn lemma_join_contains(parts: Seq<Seq<char>>, sep: Seq<char>, k: int)
    requires
        0 <= k < parts.len(),
    ensures
        contains_seq(join(parts, sep), parts[k]),
    decreases parts.len(),
{
    if parts.len() == 1 {
        assert(parts[0].subrange(0, parts[0].len() as int) =~= parts[0]);
        lemma_contains_at(parts[0], parts[0], 0);
    } else {
        let head = join(parts.drop_last(), sep) + sep;
        if k == parts.len() - 1 {
            assert(parts.last().subrange(0, parts.last().len() as int) =~= parts.last());
            lemma_contains_at(parts.last(), parts.last(), 0);
            lemma_contains_concat(head, parts.last(), parts[k]);
        } else {
            lemma_join_contains(parts.drop_last(), sep, k);
            assert(parts.drop_last()[k] == parts[k]);
            lemma_contains_concat(join(parts.drop_last(), sep), sep, parts[k]);
            lemma_contains_concat(head, parts.last(), parts[k]);
        }
    }
}

proof fn lemma_covers_concat(a: Seq<Seq<char>>, b: Seq<Seq<char>>, w: Seq<char>)
    ensures
        covers(a, w) ==> covers(a + b, w),
        covers(b, w) ==> covers(a + b, w),
{
    if covers(a, w) {
        let k = choose|k: int| 0 <= k < a.len() && #[trigger] contains_seq(a[k], w);
        assert((a + b)[k] == a[k]);
    }
    if covers(b, w) {
        let k = choose|k: int| 0 <= k < b.len() && #[trigger] contains_seq(b[k], w);
        assert((a + b)[a.len() + k] == b[k]);
    }
}

/// A non-empty run without whitespace at its ends survives trimming.
proof fn lemma_trim_start_keeps(s: Seq<char>, w: Seq<char>, i: int) -> (j: int)
    requires
        w.len() > 0,
        !is_ws(w[0]),
        0 <= i,
        i + w.len() <= s.len(),
        s.subrange(i, i + w.len()) == w,
    ensures
        0 <= j,
        j + w.len() <= trim_start(s).len(),
        trim_start(s).subrange(j, j + w.len()) == w,
    decreases s.len(),
{
    if s.len() > 0 && is_ws(s[0]) {
        assert(s[i] == w[0]);
        assert(i > 0);
        assert(s.drop_first().subrange(i - 1, i - 1 + w.len()) =~= s.subrange(i, i + w.len()));
        lemma_trim_start_keeps(s.drop_first(), w, i - 1)
    } else {
        i
    }
}

proof fn lemma_trim_end_keeps(s: Seq<char>, w: Seq<char>, i: int)
    requires
        w.len() > 0,
        !is_ws(w.last()),
        0 <= i,
        i + w.len() <= s.len(),
        s.subrange(i, i + w.len()) == w,
    ensures
        i + w.len() <= trim_end(s).len(),
        trim_end(s).subrange(i, i + w.len()) == w,
    decreases s.len(),
{
    if s.len() > 0 && is_ws(s.last()) {
        assert(s[i + w.len() - 1] == w.last());
        assert(i + w.len() < s.len());
        assert(s.drop_last().subrange(i, i + w.len()) =~= s.subrange(i, i + w.len()));
        lemma_trim_end_keeps(s.drop_last(), w, i);
    }
}

proof fn lemma_trim_keeps(s: Seq<char>, w: Seq<char>)
    requires
        w.len() > 0,
        is_trimmed(w),
        contains_seq(s, w),
    ensures
        contains_seq(trim(s), w),
{
    let i = choose|i: int| 0 <= i && i + w.len() <= s.len() && #[trigger] s.subrange(i, i + w.len()) == w;
    let j = lemma_trim_start_keeps(s, w, i);
    lemma_trim_end_keeps(trim_start(s), w, j);
    lemma_contains_at(trim(s), w, j);
}

/// Cleaning keeps every non-empty trimmed run that some piece contained.
proof fn lemma_clean_covers(out: Seq<Seq<char>>, w: Seq<char>)
    requires
        w.len() > 0,
        is_trimmed(w),
        covers(out, w),
    ensures
        covers(clean_chunks(out), w),
    decreases out.len(),
{
    let k = choose|k: int| 0 <= k < out.len() && #[trigger] contains_seq(out[k], w);
    let prev = clean_chunks(out.drop_last());
    let c = trim(out.last());
    if k == out.len() - 1 {
        lemma_trim_keeps(out.last(), w);
        crate::text::lemma_trim_shape(out.last());
        assert(c.len() >= w.len()) by {
            let i = choose|i: int| 0 <= i && i + w.len() <= c.len() && #[trigger] c.subrange(i, i + w.len()) == w;
        }
        if prev.len() > 0 && prev.last() == c {
            assert(clean_chunks(out) == prev);
            assert(contains_seq(prev[prev.len() - 1], w));
        } else {
            assert(clean_chunks(out) == prev.push(c));
            assert(prev.push(c)[prev.len() as int] == c);
        }
    } else {
        assert(out.drop_last()[k] == out[k]);
        lemma_clean_covers(out.drop_last(), w);
        let j = choose|j: int| 0 <= j < prev.len() && #[trigger] contains_seq(prev[j], w);
        if !(c.len() == 0 || (prev.len() > 0 && prev.last() == c)) {
            assert(prev.push(c)[j] == prev[j]);
        }
    }
}

proof fn lemma_window_scan_no_over(u: Seq<Seq<char>>, max: int, start: int, end: int, len: int)
    requires
        start < end,
    ensures
        !window_scan(u, max, start, end, len).2,
    decreases u.len() - end,
{
    if 0 <= end < u.len() {
        let ul = u[end].len() as int;
        let next = len + 1 + ul;
        if !(next > max) && !(next >= max) {
            lemma_window_scan_no_over(u, max, start, end + 1, next);
        }
    }
}

proof fn lemma_window_scan_advances(u: Seq<Seq<char>>, max: int, start: int)
    requires
        0 <= start < u.len(),
    ensures
        !window_scan(u, max, start, start, 0).2 ==> window_scan(u, max, start, start, 0).0 > start,
        window_scan(u, max, start, start, 0).0 <= u.len(),
        window_scan(u, max, start, start, 0).2 ==> u[start].len() > max,
{
    let ul = u[start].len() as int;
    if !(ul > max) && !(ul >= max) {
        lemma_window_scan_bounds(u, max, start, start + 1, ul);
        lemma_window_scan_no_over(u, max, start, start + 1, ul);
    }
    lemma_window_scan_bounds(u, max, start, start, 0);
}

/// Every unit from `start` on that fits the budget is inside some window piece.
proof fn lemma_window_covers(u: Seq<Seq<char>>, max: int, overlap: int, start: int)
    requires
        0 <= start,
    ensures
        forall|i: int|
            start <= i < u.len() && u[i].len() <= max ==> covers(
                window_chunks(u, max, overlap, start),
                #[trigger] u[i],
            ),
    decreases u.len() - start,
{
    if start < u.len() {
        let out = window_chunks(u, max, overlap, start);
        let (end, len, over) = window_scan(u, max, start, start, 0);
        lemma_window_scan_advances(u, max, start);
        if over {
            let rest = window_chunks(u, max, overlap, start + 1);
            let head = spec_hard_chunks(u[start], max, overlap);
            lemma_window_covers(u, max, overlap, start + 1);
            assert(out == head + rest);
            assert forall|i: int| start <= i < u.len() && u[i].len() <= max implies covers(
                out,
                #[trigger] u[i],
            ) by {
                if i > start {
                    lemma_covers_concat(head, rest, u[i]);
                }
            }
        } else {
            let piece = join(u.subrange(start, end), seq![' ']);
            assert forall|i: int| start <= i < end implies #[trigger] contains_seq(piece, u[i]) by {
                lemma_join_contains(u.subrange(start, end), seq![' '], i - start);
                assert(u.subrange(start, end)[i - start] == u[i]);
            }
            if end >= u.len() {
                assert(out == seq![piece]);
                assert forall|i: int| start <= i < u.len() && u[i].len() <= max implies covers(
                    out,
                    #[trigger] u[i],
                ) by {
                    assert(contains_seq(out[0], u[i]));
                }
            } else {
                let ns = next_window_start(u, overlap, start, end);
                let rest = window_chunks(u, max, overlap, ns);
                lemma_window_covers(u, max, overlap, ns);
                assert(out == seq![piece] + rest);
                assert forall|i: int| start <= i < u.len() && u[i].len() <= max implies covers(
                    out,
                    #[trigger] u[i],
                ) by {
                    if i < end {
                        assert(contains_seq(seq![piece][0], u[i]));
                        lemma_covers_concat(seq![piece], rest, u[i]);
                    } else {
                        lemma_covers_concat(seq![piece], rest, u[i]);
                    }
                }
            }
        }
    }
}

/// A whitespace-collapsed text is trimmed.
proof fn lemma_collapse_trimmed(s: Seq<char>)
    ensures
        is_trimmed(collapse(s)),
{
    crate::text::lemma_ws_scan_clean(s);
    let ws = words(s);
    lemma_join_ends(ws, seq![' ']);
    if ws.len() > 0 {
        assert(ws[0].len() > 0);
        assert(!is_ws(ws[0][0]));
        let l = ws[ws.len() - 1];
        assert(l.len() > 0);
        assert(!is_ws(l[l.len() - 1]));
    }
}

proof fn lemma_join_ends(ws: Seq<Seq<char>>, sep: Seq<char>)
    requires
        all_words_clean(ws),
    ensures
        ws.len() > 0 ==> join(ws, sep).len() > 0 && join(ws, sep)[0] == ws[0][0] && join(ws, sep).last()
            == ws.last().last(),
    decreases ws.len(),
{
    if ws.len() > 1 {
        assert(all_words_clean(ws.drop_last())) by {
            assert forall|k: int| 0 <= k < ws.drop_last().len() implies #[trigger] ws.drop_last()[k].len() > 0
                && (forall|m: int| 0 <= m < ws.drop_last()[k].len() ==> !is_ws(ws.drop_last()[k][m])) by {
                assert(ws.drop_last()[k] == ws[k]);
                assert(ws[k].len() > 0);
            }
        }
        lemma_join_ends(ws.drop_last(), sep);
        assert(ws.drop_last()[0] == ws[0]);
        assert(ws[ws.len() - 1].len() > 0);
    } else if ws.len() == 1 {
        assert(ws[0].len() > 0);
    }
}

/// Every unit is non-empty and trimmed.
proof fn lemma_units_trimmed(text: Seq<char>)
    ensures
        forall|k: int|
            0 <= k < spec_split_into_units(text).len() ==> #[trigger] spec_split_into_units(text)[k].len() > 0
                && is_trimmed(spec_split_into_units(text)[k]),
{
    lemma_units_of_paragraphs_trimmed(spec_split_paragraphs(text));
}

proof fn lemma_units_of_sentences_trimmed(sents: Seq<Seq<char>>)
    ensures
        forall|k: int|
            0 <= k < units_of_sentences(sents).len() ==> #[trigger] units_of_sentences(sents)[k].len() > 0
                && is_trimmed(units_of_sentences(sents)[k]),
    decreases sents.len(),
{
    if sents.len() > 0 {
        lemma_units_of_sentences_trimmed(sents.drop_last());
        lemma_collapse_trimmed(sents.last());
        let prev = units_of_sentences(sents.drop_last());
        let c = collapse(sents.last());
        if c.len() > 0 {
            assert forall|k: int| 0 <= k < prev.push(c).len() implies #[trigger] prev.push(c)[k].len() > 0
                && is_trimmed(prev.push(c)[k]) by {
                if k < prev.len() {
                    assert(prev.push(c)[k] == prev[k]);
                }
            }
        }
    }
}

proof fn lemma_units_of_paragraphs_trimmed(paras: Seq<Seq<char>>)
    ensures
        forall|k: int|
            0 <= k < units_of_paragraphs(paras).len() ==> #[trigger] units_of_paragraphs(paras)[k].len() > 0
                && is_trimmed(units_of_paragraphs(paras)[k]),
    decreases paras.len(),
{
    if paras.len() > 0 {
        lemma_units_of_paragraphs_trimmed(paras.drop_last());
        lemma_units_of_sentences_trimmed(spec_split_sentences(paras.last()));
        let a = units_of_paragraphs(paras.drop_last());
        let b = units_of_sentences(spec_split_sentences(paras.last()));
        assert forall|k: int| 0 <= k < (a + b).len() implies #[trigger] (a + b)[k].len() > 0 && is_trimmed(
            (a + b)[k],
        ) by {
            if k < a.len() {
                assert((a + b)[k] == a[k]);
            } else {
                assert((a + b)[k] == b[k - a.len()]);
            }
        }
    }
}

/// Law: when a text is longer than the budget, every sentence or clause unit
/// that fits the budget appears, as a contiguous run, in some chunk.
pub proof fn law_units_kept(text: Seq<char>, max_chars: int, overlap_chars: int)
    ensures
        trim(text).len() > effective_max(max_chars) ==> forall|i: int|
            0 <= i < spec_split_into_units(trim(text)).len() && #[trigger] spec_split_into_units(
                trim(text),
            )[i].len() <= effective_max(max_chars) ==> covers(
                spec_chunk_text(text, max_chars, overlap_chars),
                spec_split_into_units(trim(text))[i],
            ),
{
    let m = effective_max(max_chars);
    let t = trim(text);
    let u = spec_split_into_units(t);
    if t.len() > m && u.len() > 0 {
        let ov = capped_overlap(overlap_chars, m);
        let out = window_chunks(u, m, ov, 0);
        lemma_window_covers(u, m, ov, 0);
        lemma_units_trimmed(t);
        assert forall|i: int| 0 <= i < u.len() && #[trigger] u[i].len() <= m implies covers(
            clean_chunks(out),
            u[i],
        ) by {
            lemma_clean_covers(out, u[i]);
        }
        assert forall|i: int| 0 <= i < u.len() && #[trigger] u[i].len() <= m implies clean_chunks(
            out,
        ).len() > 0 by {
            lemma_clean_covers(out, u[i]);
        }
    }
}


// ---------------------------------------------------------------------------
// Words through the unit split.
// ---------------------------------------------------------------------------

proof fn lemma_skip_spaces_blank(s: Seq<char>, k: int)
    requires
        0 <= k <= s.len(),
    ensures
        k <= skip_spaces(s, k) <= s.len(),
        forall|m: int| k <= m < skip_spaces(s, k) ==> is_ws(#[trigger] s[m]),
    decreases s.len() - k,
{
    if k < s.len() && is_ws(s[k]) {
        lemma_skip_spaces_blank(s, k + 1);
    }
}

proof fn lemma_nonblank_words(t: Seq<char>)
    ensures
        flat_words(nonblank(t)) == words(t),
{
    lemma_words_trim(t);
    if trim(t).len() > 0 {
        lemma_flat_words_single(trim(t));
    } else {
        assert(trim(t) =~= Seq::<char>::empty());
        lemma_words_blank(trim(t));
    }
}

proof fn lemma_sentence_scan_words(s: Seq<char>, start: int, i: int)
    requires
        0 <= start <= i,
        start <= s.len(),
    ensures
        flat_words(sentence_scan(s, start, i)) == words(s.subrange(start, s.len() as int)),
    decreases s.len() - i,
{
    if i >= s.len() {
        lemma_nonblank_words(s.subrange(start, s.len() as int));
    } else {
        match boundary_at(s, i) {
            Some((j, k)) => {
                lemma_skip_quotes(s, i + 1);
                lemma_skip_spaces_blank(s, j);
                lemma_sentence_scan_words(s, k, k);
                lemma_nonblank_words(s.subrange(start, j));
                lemma_flat_words_concat(nonblank(s.subrange(start, j)), sentence_scan(s, k, k));
                let a = s.subrange(start, j);
                let b = s.subrange(j, s.len() as int);
                assert(s.subrange(start, s.len() as int) =~= a + b);
                assert(b[0] == s[j]);
                lemma_words_concat(a, b);
                let w = s.subrange(j, k);
                let x = s.subrange(k, s.len() as int);
                assert(b =~= w + x);
                assert forall|m: int| 0 <= m < w.len() implies is_ws(w[m]) by {
                    assert(w[m] == s[j + m]);
                }
                lemma_words_blank_prefix(w, x);
            },
            None => {
                lemma_sentence_scan_words(s, start, i + 1);
            },
        }
    }
}

proof fn lemma_split_sentences_words(p: Seq<char>)
    ensures
        flat_words(spec_split_sentences(p)) == words(p),
{
    if p.len() == 0 {
        lemma_words_blank(p);
    } else {
        lemma_sentence_scan_words(p, 0, 0);
        assert(p.subrange(0, p.len() as int) =~= p);
        if sentence_scan(p, 0, 0).len() == 0 {
            lemma_flat_words_single(p);
        }
    }
}

proof fn lemma_units_of_sentences_words(sents: Seq<Seq<char>>)
    ensures
        flat_words(units_of_sentences(sents)) == flat_words(sents),
    decreases sents.len(),
{
    if sents.len() > 0 {
        let x = sents.last();
        lemma_units_of_sentences_words(sents.drop_last());
        lemma_words_collapse(x);
        let prev = units_of_sentences(sents.drop_last());
        if collapse(x).len() > 0 {
            assert(prev.push(collapse(x)).drop_last() =~= prev);
        } else {
            assert(collapse(x) =~= Seq::<char>::empty());
            lemma_words_blank(collapse(x));
            assert(flat_words(sents) =~= flat_words(sents.drop_last()));
        }
    }
}

proof fn lemma_units_of_paragraphs_words(paras: Seq<Seq<char>>)
    ensures
        flat_words(units_of_paragraphs(paras)) == flat_words(paras),
    decreases paras.len(),
{
    if paras.len() > 0 {
        let p = paras.last();
        lemma_units_of_paragraphs_words(paras.drop_last());
        lemma_flat_words_concat(
            units_of_paragraphs(paras.drop_last()),
            units_of_sentences(spec_split_sentences(p)),
        );
        lemma_units_of_sentences_words(spec_split_sentences(p));
        lemma_split_sentences_words(p);
    }
}

proof fn lemma_clean_parts_words(parts: Seq<Seq<char>>)
    ensures
        flat_words(clean_parts(parts)) == flat_words(parts),
    decreases parts.len(),
{
    if parts.len() > 0 {
        let x = parts.last();
        lemma_clean_parts_words(parts.drop_last());
        lemma_words_trim(x);
        let prev = clean_parts(parts.drop_last());
        if trim(x).len() > 0 {
            assert(prev.push(trim(x)).drop_last() =~= prev);
        } else {
            assert(trim(x) =~= Seq::<char>::empty());
            lemma_words_blank(trim(x));
            assert(flat_words(parts) =~= flat_words(parts.drop_last()));
        }
    }
}

proof fn lemma_split_scan_words(s: Seq<char>)
    ensures
        split_scan(s, '\n').1.len() <= s.len(),
        split_scan(s, '\n').1 == s.skip(s.len() - split_scan(s, '\n').1.len()),
        ws_scan(s.take(s.len() - split_scan(s, '\n').1.len())).1.len() == 0,
        flat_words(split_scan(s, '\n').0) == words(s.take(
            s.len() - split_scan(s, '\n').1.len(),
        )),
    decreases s.len(),
{
    if s.len() == 0 {
        assert(s.take(0) =~= Seq::<char>::empty());
        assert(s.skip(0) =~= s);
    } else {
        let s0 = s.drop_last();
        lemma_split_scan_words(s0);
        let (d0, c0) = split_scan(s0, '\n');
        let p0 = s0.take(s0.len() - c0.len());
        if s.last() == '\n' {
            assert(s.take(s.len() as int) =~= s);
            assert(s.skip(s.len() as int) =~= Seq::<char>::empty());
            assert(s0 =~= p0 + c0);
            lemma_words_after_blank(p0, c0);
            assert(d0.push(c0).drop_last() =~= d0);
            let nl = seq!['\n'];
            assert(s =~= s0 + nl);
            assert(nl[0] == '\n');
            lemma_words_concat(s0, nl);
            lemma_words_blank(nl);
            assert(words(s0) + words(nl) =~= words(s0));
        } else {
            assert(s.take(s.len() - (c0.len() + 1)) =~= p0);
            assert(s.skip(s.len() - (c0.len() + 1)) =~= c0.push(s.last()));
        }
    }
}

proof fn lemma_lines_words(s: Seq<char>)
    ensures
        flat_words(clean_parts(split_on(s, '\n'))) == words(s),
{
    lemma_split_scan_words(s);
    lemma_clean_parts_words(split_on(s, '\n'));
    let (d, c) = split_scan(s, '\n');
    let p = s.take(s.len() - c.len());
    assert(s =~= p + c);
    lemma_words_after_blank(p, c);
    assert(d.push(c).drop_last() =~= d);
}

/// Law: splitting a text into units loses and adds no word: the words of the
/// units, in order, are the words of the paragraphs; and when the text is not
/// broken at blank lines, they are the words of the text itself.
pub proof fn law_units_keep_words(text: Seq<char>)
    ensures
        flat_words(spec_split_into_units(text)) == flat_words(spec_split_paragraphs(text)),
        (match spec_regex_split(paragraph_pattern(), text) {
            Ok(p) => clean_parts(p).len() <= 1,
            Err(_) => true,
        }) ==> flat_words(spec_split_into_units(text)) == words(text),
{
    lemma_units_of_paragraphs_words(spec_split_paragraphs(text));
    lemma_lines_words(text);
    lemma_flat_words_single(text);
}


// ---------------------------------------------------------------------------
// The character-split fallbacks are never taken for a non-blank text.
// ---------------------------------------------------------------------------

/// A trimmed text is its own trim.
proof fn lemma_trimmed_fixed(c: Seq<char>)
    requires
        is_trimmed(c),
    ensures
        trim(c) == c,
{
    if c.len() > 0 {
        lemma_trim_is_whole(c);
    } else {
        assert(trim(c) =~= c);
    }
}

proof fn lemma_trim_is_whole(c: Seq<char>)
    requires
        c.len() > 0,
        !is_ws(c[0]),
        !is_ws(c.last()),
    ensures
        trim(c) == c,
{
    assert(trim_start(c) == c);
    assert(trim_end(c) =~= c);
}

proof fn lemma_clean_parts_shape(parts: Seq<Seq<char>>)
    ensures
        forall|k: int|
            0 <= k < clean_parts(parts).len() ==> #[trigger] clean_parts(parts)[k].len() > 0
                && is_trimmed(clean_parts(parts)[k]),
    decreases parts.len(),
{
    if parts.len() > 0 {
        lemma_clean_parts_shape(parts.drop_last());
        crate::text::lemma_trim_shape(parts.last());
        let prev = clean_parts(parts.drop_last());
        let c = trim(parts.last());
        if c.len() > 0 {
            assert forall|k: int| 0 <= k < prev.push(c).len() implies #[trigger] prev.push(c)[k].len()
                > 0 && is_trimmed(prev.push(c)[k]) by {
                if k < prev.len() {
                    assert(prev.push(c)[k] == prev[k]);
                }
            }
        }
    }
}

/// A non-blank text has at least one unit.
proof fn lemma_units_nonempty(t: Seq<char>)
    requires
        trim(t).len() > 0,
    ensures
        spec_split_into_units(t).len() > 0,
{
    law_units_keep_words(t);
    crate::text::lemma_trim_shape(t);
    let paras = spec_split_paragraphs(t);
    let parts = match spec_regex_split(paragraph_pattern(), t) {
        Ok(p) => clean_parts(p),
        Err(_) => seq![],
    };
    let lines = clean_parts(split_on(t, '\n'));
    if parts.len() > 1 {
        match spec_regex_split(paragraph_pattern(), t) {
            Ok(p) => lemma_clean_parts_shape(p),
            Err(_) => {},
        }
        assert(paras[0].len() > 0 && is_trimmed(paras[0]));
        crate::text::lemma_words_nonempty(paras[0], 0);
        crate::text::lemma_flat_words_nonempty(paras, 0);
    } else if lines.len() > 1 {
        lemma_clean_parts_shape(split_on(t, '\n'));
        assert(paras[0].len() > 0 && is_trimmed(paras[0]));
        crate::text::lemma_words_nonempty(paras[0], 0);
        crate::text::lemma_flat_words_nonempty(paras, 0);
    } else {
        let k = choose|k: int| 0 <= k < t.len() && !is_ws(t[k]);
        crate::text::lemma_words_nonempty(t, k);
        assert(paras == seq![t]);
        crate::text::lemma_flat_words_nonempty(paras, 0);
    }
    if spec_split_into_units(t).len() == 0 {
        assert(flat_words(spec_split_into_units(t)) =~= Seq::<Seq<char>>::empty());
    }
}

proof fn lemma_join_first(parts: Seq<Seq<char>>, sep: Seq<char>)
    requires
        parts.len() > 0,
        parts[0].len() > 0,
    ensures
        join(parts, sep).len() > 0,
        join(parts, sep)[0] == parts[0][0],
    decreases parts.len(),
{
    if parts.len() > 1 {
        assert(parts.drop_last()[0] == parts[0]);
        lemma_join_first(parts.drop_last(), sep);
    }
}

proof fn lemma_clean_chunks_nonempty(out: Seq<Seq<char>>, k: int)
    requires
        0 <= k < out.len(),
        trim(out[k]).len() > 0,
    ensures
        clean_chunks(out).len() > 0,
    decreases out.len(),
{
    if k < out.len() - 1 {
        assert(out.drop_last()[k] == out[k]);
        lemma_clean_chunks_nonempty(out.drop_last(), k);
    }
}

/// The first window piece starts with the first character of the first unit.
proof fn lemma_window_first_nonblank(u: Seq<Seq<char>>, m: int, ov: int)
    requires
        u.len() > 0,
        u[0].len() > 0,
        !is_ws(u[0][0]),
        m >= 1,
    ensures
        clean_chunks(window_chunks(u, m, ov, 0)).len() > 0,
{
    let out = window_chunks(u, m, ov, 0);
    let (end, len, over) = window_scan(u, m, 0, 0, 0);
    lemma_window_scan_advances(u, m, 0);
    let first: Seq<char> = if over {
        let h = spec_hard_chunks(u[0], m, ov);
        lemma_hard_chunks(u[0], m, ov);
        assert(out[0] == h[0]);
        if u[0].len() > m {
            assert(h[0] == u[0].subrange(0, m));
        }
        h[0]
    } else {
        let piece = join(u.subrange(0, end), seq![' ']);
        assert(u.subrange(0, end)[0] == u[0]);
        lemma_join_first(u.subrange(0, end), seq![' ']);
        assert(out[0] == piece);
        piece
    };
    assert(first.len() > 0 && first[0] == u[0][0]);
    crate::text::lemma_trim_shape(first);
    lemma_clean_chunks_nonempty(out, 0);
}

/// For a text over the budget, the chunks are the cleaned unit windows.
proof fn lemma_windows_reached(text: Seq<char>, max_chars: int, overlap_chars: int)
    requires
        trim(text).len() > effective_max(max_chars),
    ensures
        ({
            let m = effective_max(max_chars);
            let u = spec_split_into_units(trim(text));
            let c = clean_chunks(window_chunks(u, m, capped_overlap(overlap_chars, m), 0));
            &&& u.len() > 0
            &&& c.len() > 0
            &&& spec_chunk_text(text, max_chars, overlap_chars) == c
        }),
{
    let m = effective_max(max_chars);
    let t = trim(text);
    crate::text::lemma_trim_shape(text);
    lemma_trimmed_fixed(t);
    lemma_units_nonempty(t);
    let u = spec_split_into_units(t);
    lemma_units_trimmed(t);
    assert(u[0].len() > 0 && is_trimmed(u[0]));
    lemma_window_first_nonblank(u, m, capped_overlap(overlap_chars, m));
}


/// Law: when the XML holds text runs, the extracted text has exactly the words
/// of the decoded runs, in order (neighbouring runs are never fused into one
/// word), separated by single spaces with nothing around them.
pub proof fn law_docx_runs_words(xml: Seq<char>)
    ensures
        spec_regex_group1(text_run_pattern(), xml) matches Ok(gs) ==> (decoded_groups(gs).len() > 0
            ==> (spec_docx_text(xml) matches Ok(t) && words(t) == flat_words(decoded_groups(gs))
            && t == collapse(t))),
{
    if let Ok(gs) = spec_regex_group1(text_run_pattern(), xml) {
        let parts = decoded_groups(gs);
        if parts.len() > 0 {
            let j = join(parts, seq![' ']);
            crate::text::lemma_words_join_space(parts);
            crate::text::lemma_collapse_idempotent(j);
        }
    }
}


// ---------------------------------------------------------------------------
// Overlap between consecutive windows.
// ---------------------------------------------------------------------------

/// Characters that units `a..b` take in a window, each with one separator.
pub open spec fn span(u: Seq<Seq<char>>, a: int, b: int) -> int
    decreases b - a,
{
    if a >= b {
        0
    } else {
        span(u, a, b - 1) + u[b - 1].len() + 1
    }
}

proof fn lemma_back_off(u: Seq<Seq<char>>, overlap: int, start: int, ns: int, back: int)
    requires
        0 <= start <= ns <= u.len(),
    ensures
        start <= back_off(u, overlap, start, ns, back) <= ns,
        back_off(u, overlap, start, ns, back) < ns ==> back + span(
            u,
            back_off(u, overlap, start, ns, back) + 1,
            ns,
        ) < overlap,
        back_off(u, overlap, start, ns, back) > start ==> back + span(
            u,
            back_off(u, overlap, start, ns, back),
            ns,
        ) >= overlap,
    decreases ns,
{
    if ns > start && back < overlap && ns > 0 {
        let b2 = back + u[ns - 1].len() + 1;
        lemma_back_off(u, overlap, start, ns - 1, b2);
        let r = back_off(u, overlap, start, ns - 1, b2);
        if r < ns - 1 {
            assert(span(u, r + 1, ns) == span(u, r + 1, ns - 1) + u[ns - 1].len() + 1);
        }
        if r > start {
            assert(span(u, r, ns) == span(u, r, ns - 1) + u[ns - 1].len() + 1);
        }
    }
}

/// Law: the overlap used is `min(overlap, budget / 2, max(budget - 64, 0))`.
pub proof fn law_capped_overlap(overlap_chars: int, max: int)
    requires
        overlap_chars >= 0,
        max >= 0,
    ensures
        capped_overlap(overlap_chars, max) <= overlap_chars,
        capped_overlap(overlap_chars, max) <= max / 2,
        capped_overlap(overlap_chars, max) <= if max >= 64 { max - 64 } else { 0 },
        capped_overlap(overlap_chars, max) == overlap_chars || capped_overlap(overlap_chars, max)
            == max / 2 || capped_overlap(overlap_chars, max) == (if max >= 64 {
            max - 64
        } else {
            0
        }),
{
}

/// Law: a text longer than the budget is chunked into the cleaned windows of
/// its units, the windows overlapping by `min(overlap, budget / 2,
/// max(budget - 64, 0))` characters, where the budget is at least 64.
pub proof fn law_long_text_windows(text: Seq<char>, max_chars: int, overlap_chars: int)
    requires
        trim(text).len() > effective_max(max_chars),
    ensures
        ({
            let m = if max_chars < 64 { 64 } else { max_chars };
            let a = if overlap_chars < m / 2 { overlap_chars } else { m / 2 };
            let ov = if a < m - 64 { a } else { m - 64 };
            spec_chunk_text(text, max_chars, overlap_chars) == clean_chunks(
                window_chunks(spec_split_into_units(trim(text)), m, ov, 0),
            )
        }),
{
    lemma_windows_reached(text, max_chars, overlap_chars);
}

/// Law: consecutive windows overlap.  When a window of units `start..end`
/// holds two units or more and is not the last, and the overlap is positive,
/// the next window starts after `start` and at or before the window's last
/// unit `end - 1`, so that unit is repeated.  It walks back over whole units
/// until they cover at least `overlap` characters (unless it reaches the unit
/// after `start`), and not one unit further.
pub proof fn law_window_overlap(u: Seq<Seq<char>>, max: int, overlap: int, start: int)
    requires
        0 <= start < u.len(),
        overlap > 0,
        !window_scan(u, max, start, start, 0).2,
        window_scan(u, max, start, start, 0).0 - start >= 2,
        window_scan(u, max, start, start, 0).0 < u.len(),
    ensures
        ({
            let end = window_scan(u, max, start, start, 0).0;
            let ns = next_window_start(u, overlap, start, end);
            &&& start < ns <= end - 1
            &&& span(u, ns + 1, end) < overlap
            &&& ns > start + 1 ==> span(u, ns, end) >= overlap
            &&& window_chunks(u, max, overlap, start) == seq![join(u.subrange(start, end), seq![' '])]
                + window_chunks(u, max, overlap, ns)
        }),
{
    let end = window_scan(u, max, start, start, 0).0;
    lemma_window_scan_advances(u, max, start);
    lemma_back_off(u, overlap, start, end, 0);
    let r = back_off(u, overlap, start, end, 0);
    assert(r < end);
    if r <= start {
        assert(span(u, start + 2, end) <= span(u, start + 1, end)) by {
            lemma_span_shrinks(u, start + 1, end);
        }
    }
}

proof fn lemma_span_shrinks(u: Seq<Seq<char>>, a: int, b: int)
    requires
        a < b,
    ensures
        span(u, a + 1, b) <= span(u, a, b),
    decreases b - a,
{
    if a + 1 < b {
        lemma_span_shrinks(u, a, b - 1);
    } else {
        assert(span(u, a, a) == 0);
        assert(span(u, a + 1, b) == 0);
    }
}


/// Law: extracted DOCX text is always whitespace-collapsed (single spaces
/// between words, none around them); without text runs its words are those
/// of the tag-stripped XML with entities decoded.
pub proof fn law_docx_text_collapsed(xml: Seq<char>)
    ensures
        spec_docx_text(xml) matches Ok(t) ==> t == collapse(t),
        spec_regex_group1(text_run_pattern(), xml) matches Ok(gs) ==> (decoded_groups(gs).len() == 0
            ==> (spec_regex_replace_all(tag_pattern(), xml, " "@) matches Ok(stripped) ==> (
        spec_docx_text(xml) matches Ok(t) && words(t) == words(decode_entities(stripped))))),
{
    if let Ok(gs) = spec_regex_group1(text_run_pattern(), xml) {
        let parts = decoded_groups(gs);
        if parts.len() > 0 {
            crate::text::lemma_collapse_idempotent(join(parts, seq![' ']));
        } else if let Ok(stripped) = spec_regex_replace_all(tag_pattern(), xml, " "@) {
            crate::text::lemma_collapse_idempotent(decode_entities(stripped));
        }
    }
}

} // verus!
