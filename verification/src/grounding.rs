//! Normalised quote matching, grounding filters and de-duplication of model findings.

use vstd::prelude::*;

use crate::models::{item_views, ContradictionItem, ItemView};
use crate::text::{
    string_views,
    char_to_lowercase, chars_eq, chars_of, collapse, collapse_chars, contains_chars, contains_seq,
    extend_chars, is_whitespace, is_ws, lex_le, lex_le_chars, spec_char_to_lowercase,
    spec_str_to_lowercase, str_to_lowercase, trim, views, words, words_of,
};

verus! {

/// One step of `Seq::filter` over a growing prefix.
pub proof fn lemma_filter_step<A>(s: Seq<A>, i: int, p: spec_fn(A) -> bool)
    requires
        0 <= i < s.len(),
    ensures
        s.take(i + 1).filter(p) == if p(s[i]) {
            s.take(i).filter(p).push(s[i])
        } else {
            s.take(i).filter(p)
        },
{
    reveal(Seq::filter);
    assert(s.take(i + 1).drop_last() =~= s.take(i));
}

// ---------------------------------------------------------------------------
// Normalisation for quote matching.
// ---------------------------------------------------------------------------

/// Folds typographic quotes, maps whitespace to a space and lower-cases the rest
/// (first character of the lower-case mapping).
pub open spec fn normalize_char(c: char) -> char {
    if c == '\u{2018}' || c == '\u{2019}' || c == '\'' || c == '`' {
        '\''
    } else if c == '\u{201c}' || c == '\u{201d}' || c == '"' {
        '"'
    } else if is_ws(c) {
        ' '
    } else if spec_char_to_lowercase(c).len() > 0 {
        spec_char_to_lowercase(c)[0]
    } else {
        c
    }
}

/// The matching form of a text: characters normalised, whitespace runs collapsed,
/// ends trimmed.
pub open spec fn normalize(s: Seq<char>) -> Seq<char> {
    collapse(s.map_values(|c: char| normalize_char(c)))
}

fn normalize_one(c: char) -> (r: char)
    ensures
        r == normalize_char(c),
{
    if c == '\u{2018}' || c == '\u{2019}' || c == '\'' || c == '`' {
        '\''
    } else if c == '\u{201c}' || c == '\u{201d}' || c == '"' {
        '"'
    } else if is_whitespace(c) {
        ' '
    } else {
        let l = char_to_lowercase(c);
        if l.len() > 0 {
            l[0]
        } else {
            c
        }
    }
}

/// The matching form of `s` (see [`normalize`]).
pub fn normalize_for_match(s: &str) -> (r: Vec<char>)
    ensures
        r@ == normalize(s@),
{
    let v = chars_of(s);
    let mut m: Vec<char> = Vec::new();
    let mut i: usize = 0;
    while i < v.len()
        invariant
            i <= v.len(),
            v@ == s@,
            m@ == s@.take(i as int).map_values(|c: char| normalize_char(c)),
        decreases v.len() - i,
    {
        m.push(normalize_one(v[i]));
        assert(s@.take(i + 1).map_values(|c: char| normalize_char(c)) =~= s@.take(
            i as int,
        ).map_values(|c: char| normalize_char(c)).push(normalize_char(s@[i as int])));
        i = i + 1;
    }
    assert(s@.take(v.len() as int) =~= s@);
    collapse_chars(&m)
}

// ---------------------------------------------------------------------------
// Grounding of quotes and contradictions.
// ---------------------------------------------------------------------------

/// Shortest normalised quote that counts as evidence.
pub open spec fn min_quote_chars() -> nat {
    12
}

/// Surrounding whitespace does not change the matching form.
pub proof fn lemma_normalize_trim(s: Seq<char>)
    ensures
        normalize(trim(s)) == normalize(s),
{
    let p = crate::text::lemma_trim_parts(s);
    let t = trim(s);
    let a = s.take(p);
    let b = s.skip(p + t.len());
    let f = |c: char| normalize_char(c);
    let ma = a.map_values(f);
    let mt = t.map_values(f);
    let mb = b.map_values(f);
    assert(s.map_values(f) =~= ma + (mt + mb));
    assert forall|k: int| 0 <= k < ma.len() implies is_ws(ma[k]) by {
        assert(a[k] == s[k]);
        assert(is_ws(s[k]));
    }
    assert forall|k: int| 0 <= k < mb.len() implies is_ws(mb[k]) by {
        assert(b[k] == s[p + t.len() + k]);
        assert(is_ws(s[p + t.len() + k]));
    }
    crate::text::lemma_words_blank_prefix(ma, mt + mb);
    crate::text::lemma_words_concat(mt, mb);
    crate::text::lemma_words_blank(mb);
    assert(words(mt) + words(mb) =~= words(mt));
}

/// A quote matches a text exactly when it matches the trimmed text.
pub proof fn lemma_quote_in_trim(q: Seq<char>, s: Seq<char>)
    ensures
        spec_quote_in_source(q, trim(s)) == spec_quote_in_source(q, s),
{
    lemma_normalize_trim(s);
}

/// The normalised quote is long enough and occurs in the normalised source.
pub open spec fn spec_quote_in_source(quote: Seq<char>, source: Seq<char>) -> bool {
    normalize(quote).len() >= min_quote_chars() && contains_seq(normalize(source), normalize(quote))
}

/// Whether `quote` is (after normalisation) a long-enough substring of `source`.
pub fn quote_in_source(quote: &str, source: &str) -> (r: bool)
    ensures
        r == spec_quote_in_source(quote@, source@),
{
    let q = normalize_for_match(quote);
    let s = normalize_for_match(source);
    if q.len() < 12 {
        return false;
    }
    contains_chars(&s, &q)
}

/// Explanations that admit the two statements do not conflict.
pub open spec fn denies_conflict(lower_expl: Seq<char>) -> bool {
    ||| contains_seq(lower_expl, "do not contradict"@)
    ||| contains_seq(lower_expl, "identical"@)
    ||| contains_seq(lower_expl, "not contradict"@)
    ||| contains_seq(lower_expl, "ziddiyat emas"@)
    ||| contains_seq(lower_expl, "bir xil"@)
}

/// Two non-empty, different statements whose explanation does not deny a conflict.
pub open spec fn spec_meaningful(v: ItemView) -> bool {
    let a = normalize(v.0);
    let b = normalize(v.1);
    &&& a.len() > 0
    &&& b.len() > 0
    &&& a != b
    &&& !denies_conflict(spec_str_to_lowercase(v.2))
}

fn contains_lit(hay: &Vec<char>, needle: &str) -> (r: bool)
    ensures
        r == contains_seq(hay@, needle@),
{
    let n = chars_of(needle);
    contains_chars(hay, &n)
}

/// Whether the item is a real contradiction between two different statements.
pub fn is_meaningful_contradiction(item: &ContradictionItem) -> (r: bool)
    ensures
        r == spec_meaningful(item@),
{
    let a = normalize_for_match(&item.statement_a);
    let b = normalize_for_match(&item.statement_b);
    if a.len() == 0 || b.len() == 0 || chars_eq(&a, &b) {
        return false;
    }
    let expl_s = str_to_lowercase(&item.explanation);
    let expl = chars_of(&expl_s);
    if contains_lit(&expl, "do not contradict") || contains_lit(&expl, "identical")
        || contains_lit(&expl, "not contradict") || contains_lit(&expl, "ziddiyat emas")
        || contains_lit(&expl, "bir xil") {
        return false;
    }
    true
}

/// Meaningful, and both statements are quoted from `source`.
pub open spec fn spec_grounded(v: ItemView, source: Seq<char>) -> bool {
    spec_meaningful(v) && spec_quote_in_source(v.0, source) && spec_quote_in_source(v.1, source)
}

/// The grounding test as a predicate on items.
pub open spec fn grounded_in(source: Seq<char>) -> spec_fn(ContradictionItem) -> bool {
    |it: ContradictionItem| spec_grounded(it@, source)
}

/// The grounding test as a predicate on item views.
pub open spec fn grounded_view(source: Seq<char>) -> spec_fn(ItemView) -> bool {
    |v: ItemView| spec_grounded(v, source)
}

/// Filtering items and filtering their views agree.
pub proof fn lemma_filter_views(s: Seq<ContradictionItem>, source: Seq<char>)
    ensures
        item_views(s.filter(grounded_in(source))) == item_views(s).filter(grounded_view(source)),
    decreases s.len(),
{
    reveal(Seq::filter);
    if s.len() > 0 {
        lemma_filter_views(s.drop_last(), source);
        assert(item_views(s.drop_last()) =~= item_views(s).drop_last());
        let f = s.drop_last().filter(grounded_in(source));
        assert(item_views(f.push(s.last())) =~= item_views(f).push(s.last()@));
    } else {
        assert(item_views(s.filter(grounded_in(source))) =~= item_views(s).filter(grounded_view(source)));
    }
}

/// Keeps, in order, exactly the items that are meaningful and quoted from `source`.
pub fn filter_grounded_contradictions(items: Vec<ContradictionItem>, source: &str) -> (r: Vec<
    ContradictionItem,
>)
    ensures
        r@ == items@.filter(grounded_in(source@)),
        item_views(r@) == item_views(items@).filter(grounded_view(source@)),
{
    proof {
        lemma_filter_views(items@, source@);
    }
    let ghost s = items@;
    let mut out: Vec<ContradictionItem> = Vec::new();
    for item in it: items
        invariant
            it.seq() == s,
            out@ == s.take(it.index() as int).filter(grounded_in(source@)),
    {
        let ghost i = it.index() as int;
        proof {
            lemma_filter_step(s, i, grounded_in(source@));
        }
        assert(item == s[i]);
        if is_meaningful_contradiction(&item) && quote_in_source(&item.statement_a, source)
            && quote_in_source(&item.statement_b, source) {
            out.push(item);
        }
    }
    assert(s.take(s.len() as int) =~= s);
    out
}

// ---------------------------------------------------------------------------
// Near-duplicate detection and de-duplication.
// ---------------------------------------------------------------------------

/// Order-independent key of a statement pair: the two normalised statements,
/// smaller first, separated by `||`.
pub open spec fn spec_pair_key(v: ItemView) -> Seq<char> {
    let a = normalize(v.0);
    let b = normalize(v.1);
    if lex_le(a, b) {
        a + "||"@ + b
    } else {
        b + "||"@ + a
    }
}

/// One text contains the other.
pub open spec fn side_match(x: Seq<char>, y: Seq<char>) -> bool {
    contains_seq(x, y) || contains_seq(y, x)
}

/// Same statement pair (in either order), allowing each side to be a
/// fragment of the other.
pub open spec fn spec_near_duplicate(a: ItemView, b: ItemView) -> bool {
    let a1 = normalize(a.0);
    let a2 = normalize(a.1);
    let b1 = normalize(b.0);
    let b2 = normalize(b.1);
    ||| spec_pair_key(a) == spec_pair_key(b)
    ||| (side_match(a1, b1) && side_match(a2, b2))
    ||| (side_match(a1, b2) && side_match(a2, b1))
}

fn pair_key_of(a: &Vec<char>, b: &Vec<char>) -> (r: Vec<char>)
    ensures
        r@ == if lex_le(a@, b@) {
            a@ + "||"@ + b@
        } else {
            b@ + "||"@ + a@
        },
{
    let mut r: Vec<char> = Vec::new();
    let sep = chars_of("||");
    if lex_le_chars(a, b) {
        extend_chars(&mut r, a);
        extend_chars(&mut r, &sep);
        extend_chars(&mut r, b);
    } else {
        extend_chars(&mut r, b);
        extend_chars(&mut r, &sep);
        extend_chars(&mut r, a);
    }
    assert(r@ =~= (if lex_le(a@, b@) {
        a@ + "||"@ + b@
    } else {
        b@ + "||"@ + a@
    }));
    r
}

/// The order-independent key of the item's statement pair.
pub fn pair_key(item: &ContradictionItem) -> (r: Vec<char>)
    ensures
        r@ == spec_pair_key(item@),
{
    let a = normalize_for_match(&item.statement_a);
    let b = normalize_for_match(&item.statement_b);
    pair_key_of(&a, &b)
}

fn side_match_exec(x: &Vec<char>, y: &Vec<char>) -> (r: bool)
    ensures
        r == side_match(x@, y@),
{
    contains_chars(x, y) || contains_chars(y, x)
}

/// Whether two items report the same conflict.
pub fn near_duplicate(a: &ContradictionItem, b: &ContradictionItem) -> (r: bool)
    ensures
        r == spec_near_duplicate(a@, b@),
{
    let ka = pair_key(a);
    let kb = pair_key(b);
    if chars_eq(&ka, &kb) {
        return true;
    }
    let a1 = normalize_for_match(&a.statement_a);
    let a2 = normalize_for_match(&a.statement_b);
    let b1 = normalize_for_match(&b.statement_a);
    let b2 = normalize_for_match(&b.statement_b);
    (side_match_exec(&a1, &b1) && side_match_exec(&a2, &b2)) || (side_match_exec(&a1, &b2)
        && side_match_exec(&a2, &b1))
}

/// Some kept item is a near-duplicate of `v`.
pub open spec fn dup_of_kept(kept: Seq<ItemView>, v: ItemView) -> bool {
    exists|k: int| 0 <= k < kept.len() && spec_near_duplicate(#[trigger] kept[k], v)
}

/// First-occurrence de-duplication: meaningful items, in order, skipping any
/// item that is a near-duplicate of one already kept.
pub open spec fn spec_dedupe(s: Seq<ItemView>) -> Seq<ItemView>
    decreases s.len(),
{
    if s.len() == 0 {
        seq![]
    } else {
        let prev = spec_dedupe(s.drop_last());
        if spec_meaningful(s.last()) && !dup_of_kept(prev, s.last()) {
            prev.push(s.last())
        } else {
            prev
        }
    }
}

fn any_near_duplicate(kept: &Vec<ContradictionItem>, item: &ContradictionItem) -> (r: bool)
    ensures
        r == dup_of_kept(item_views(kept@), item@),
{
    let mut j: usize = 0;
    while j < kept.len()
        invariant
            j <= kept.len(),
            forall|k: int| 0 <= k < j ==> !spec_near_duplicate(#[trigger] item_views(kept@)[k], item@),
        decreases kept.len() - j,
    {
        assert(item_views(kept@)[j as int] == kept@[j as int]@);
        if near_duplicate(&kept[j], item) {
            return true;
        }
        j = j + 1;
    }
    false
}

/// Drops non-meaningful items and near-duplicates of earlier items.
pub fn dedupe_contradictions(items: Vec<ContradictionItem>) -> (r: Vec<ContradictionItem>)
    ensures
        item_views(r@) == spec_dedupe(item_views(items@)),
{
    let ghost s = items@;
    let ghost sv = item_views(items@);
    let mut out: Vec<ContradictionItem> = Vec::new();
    for item in it: items
        invariant
            it.seq() == s,
            sv == item_views(s),
            item_views(out@) == spec_dedupe(sv.take(it.index() as int)),
    {
        let ghost i = it.index() as int;
        assert(sv.take(i + 1).drop_last() =~= sv.take(i));
        assert(item == s[i]);
        assert(sv.take(i + 1).last() == item@);
        if is_meaningful_contradiction(&item) && !any_near_duplicate(&out, &item) {
            let ghost before = out@;
            out.push(item);
            assert(item_views(out@) =~= item_views(before).push(item@));
        }
    }
    assert(sv.take(s.len() as int) =~= sv);
    out
}

// ---------------------------------------------------------------------------
// De-duplication of extracted claims.
// ---------------------------------------------------------------------------

/// A kept claim whose normalised form equals, contains or is contained in `n`.
pub open spec fn claim_overlaps_kept(kept: Seq<Seq<char>>, n: Seq<char>) -> bool {
    exists|k: int|
        0 <= k < kept.len() && {
            let kn = normalize(#[trigger] kept[k]);
            kn == n || contains_seq(kn, n) || contains_seq(n, kn)
        }
}

/// The claim collection is full: something was kept and the limit is reached.
pub open spec fn claims_full(out: Seq<Seq<char>>, limit: usize) -> bool {
    out.len() > 0 && out.len() >= limit
}

/// Claims in order, skipping short ones (normalised length under 12) and ones
/// overlapping a kept claim, stopping once `limit` claims are kept.
pub open spec fn spec_dedupe_strings(s: Seq<Seq<char>>, limit: usize) -> Seq<Seq<char>>
    decreases s.len(),
{
    if s.len() == 0 {
        seq![]
    } else {
        let prev = spec_dedupe_strings(s.drop_last(), limit);
        let n = normalize(s.last());
        if claims_full(prev, limit) || n.len() < min_quote_chars() || claim_overlaps_kept(prev, n) {
            prev
        } else {
            prev.push(s.last())
        }
    }
}

fn overlaps_kept(kept: &Vec<String>, n: &Vec<char>) -> (r: bool)
    ensures
        r == claim_overlaps_kept(string_views(kept@), n@),
{
    let mut j: usize = 0;
    while j < kept.len()
        invariant
            j <= kept.len(),
            forall|k: int|
                0 <= k < j ==> {
                    let kn = normalize(#[trigger] string_views(kept@)[k]);
                    !(kn == n@ || contains_seq(kn, n@) || contains_seq(n@, kn))
                },
        decreases kept.len() - j,
    {
        assert(string_views(kept@)[j as int] == kept@[j as int]@);
        let kn = normalize_for_match(&kept[j]);
        if chars_eq(&kn, n) || contains_chars(&kn, n) || contains_chars(n, &kn) {
            return true;
        }
        j = j + 1;
    }
    false
}

/// De-duplicates claims by normalised containment, keeping at most `limit`
/// (at least the first acceptable one).
pub fn dedupe_strings(items: Vec<String>, limit: usize) -> (r: Vec<String>)
    ensures
        string_views(r@) == spec_dedupe_strings(string_views(items@), limit),
{
    let ghost s = items@;
    let ghost sv = string_views(items@);
    let mut out: Vec<String> = Vec::new();
    let mut full = false;
    for item in it: items
        invariant
            it.seq() == s,
            sv == string_views(s),
            string_views(out@) == spec_dedupe_strings(sv.take(it.index() as int), limit),
            full == claims_full(string_views(out@), limit),
    {
        let ghost i = it.index() as int;
        assert(sv.take(i + 1).drop_last() =~= sv.take(i));
        assert(item == s[i]);
        assert(sv.take(i + 1).last() == item@);
        if !full {
            let n = normalize_for_match(&item);
            if n.len() >= 12 && !overlaps_kept(&out, &n) {
                let ghost before = out@;
                out.push(item);
                assert(string_views(out@) =~= string_views(before).push(item@));
                if out.len() >= limit {
                    full = true;
                }
            }
        }
    }
    assert(sv.take(s.len() as int) =~= sv);
    out
}

// ---------------------------------------------------------------------------
// Summary grounding.
// ---------------------------------------------------------------------------

/// The words of at least four characters.
pub open spec fn long_tokens(sn: Seq<char>) -> Seq<Seq<char>> {
    words(sn).filter(|t: Seq<char>| t.len() >= 4)
}

/// The tokens that occur in `srcn`.
pub open spec fn tokens_found(toks: Seq<Seq<char>>, srcn: Seq<char>) -> Seq<Seq<char>> {
    toks.filter(|t: Seq<char>| contains_seq(srcn, t))
}

/// A summary is grounded when it is non-empty and either has fewer than four
/// long tokens or at least a quarter of its long tokens occur in the source
/// (both normalised).
pub open spec fn spec_summary_grounded(summary: Seq<char>, source: Seq<char>) -> bool {
    let sn = normalize(summary);
    let srcn = normalize(source);
    if sn.len() == 0 {
        false
    } else {
        let toks = long_tokens(sn);
        toks.len() < 4 || 4 * tokens_found(toks, srcn).len() >= toks.len()
    }
}

/// Rejects summaries that talk about topics absent from the source.
pub fn summary_grounded_in_source(summary: &str, source: &str) -> (r: bool)
    ensures
        r == spec_summary_grounded(summary@, source@),
{
    let sn = normalize_for_match(summary);
    let srcn = normalize_for_match(source);
    if sn.len() == 0 {
        return false;
    }
    let ws = words_of(&sn);
    let ghost w = views(ws@);
    let ghost lp = |t: Seq<char>| t.len() >= 4;
    let ghost fp = |t: Seq<char>| contains_seq(srcn@, t);
    let mut n_tokens: usize = 0;
    let mut hits: usize = 0;
    let mut i: usize = 0;
    while i < ws.len()
        invariant
            i <= ws.len(),
            w == views(ws@),
            lp == (|t: Seq<char>| t.len() >= 4),
            fp == (|t: Seq<char>| contains_seq(srcn@, t)),
            n_tokens == w.take(i as int).filter(lp).len(),
            hits == w.take(i as int).filter(lp).filter(fp).len(),
            hits <= n_tokens <= i,
        decreases ws.len() - i,
    {
        proof {
            lemma_filter_step(w, i as int, lp);
            let t = w.take(i as int).filter(lp);
            if lp(w[i as int]) {
                assert(t.push(w[i as int]).drop_last() =~= t);
                reveal(Seq::filter);
            }
        }
        if ws[i].len() >= 4 {
            n_tokens = n_tokens + 1;
            if contains_chars(&srcn, &ws[i]) {
                hits = hits + 1;
            }
        }
        i = i + 1;
    }
    assert(w.take(ws.len() as int) =~= w);
    n_tokens < 4 || hits >= n_tokens / 4 + (if n_tokens % 4 == 0 { 0 } else { 1 })
}

// ---------------------------------------------------------------------------
// Laws.
// ---------------------------------------------------------------------------

proof fn lemma_filter_all<A>(s: Seq<A>, p: spec_fn(A) -> bool)
    requires
        forall|i: int| 0 <= i < s.len() ==> p(#[trigger] s[i]),
    ensures
        s.filter(p) == s,
    decreases s.len(),
{
    reveal(Seq::filter);
    if s.len() > 0 {
        lemma_filter_all(s.drop_last(), p);
        assert(s.drop_last().push(s.last()) =~= s);
    }
}

/// Law: grounding is idempotent — filtering the kept items against the same
/// source keeps them all.
pub proof fn law_grounding_idempotent(items: Seq<ContradictionItem>, source: Seq<char>)
    ensures
        items.filter(grounded_in(source)).filter(grounded_in(source)) == items.filter(
            grounded_in(source),
        ),
{
    let f = items.filter(grounded_in(source));
    broadcast use Seq::lemma_filter_pred;
    assert forall|i: int| 0 <= i < f.len() implies (grounded_in(source))(#[trigger] f[i]) by {
        items.lemma_filter_pred(grounded_in(source), i);
    }
    lemma_filter_all(f, grounded_in(source));
}

/// Law: every item kept by grounding is meaningful and has both statements,
/// normalised, as substrings of at least 12 characters of the normalised source.
pub proof fn law_grounded_items_are_quoted(items: Seq<ContradictionItem>, source: Seq<char>)
    ensures
        forall|i: int|
            0 <= i < items.filter(grounded_in(source)).len() ==> {
                let v = (#[trigger] items.filter(grounded_in(source))[i])@;
                &&& spec_meaningful(v)
                &&& normalize(v.0).len() >= 12 && contains_seq(normalize(source), normalize(v.0))
                &&& normalize(v.1).len() >= 12 && contains_seq(normalize(source), normalize(v.1))
            },
{
    assert forall|i: int| 0 <= i < items.filter(grounded_in(source)).len() implies {
        let v = (#[trigger] items.filter(grounded_in(source))[i])@;
        &&& spec_meaningful(v)
        &&& normalize(v.0).len() >= 12 && contains_seq(normalize(source), normalize(v.0))
        &&& normalize(v.1).len() >= 12 && contains_seq(normalize(source), normalize(v.1))
    } by {
        items.lemma_filter_pred(grounded_in(source), i);
    }
}

/// Law: near-duplication is symmetric.
pub proof fn law_near_duplicate_symmetric(a: ItemView, b: ItemView)
    ensures
        spec_near_duplicate(a, b) == spec_near_duplicate(b, a),
{
}

proof fn lemma_lex_total(a: Seq<char>, b: Seq<char>)
    ensures
        lex_le(a, b) || lex_le(b, a),
        lex_le(a, b) && lex_le(b, a) ==> a == b,
    decreases a.len(),
{
    if a.len() > 0 && b.len() > 0 && a[0] == b[0] {
        lemma_lex_total(a.drop_first(), b.drop_first());
        if lex_le(a, b) && lex_le(b, a) {
            assert(a =~= seq![a[0]] + a.drop_first());
            assert(b =~= seq![b[0]] + b.drop_first());
        }
    }
}

/// Law: the pair key ignores the order of the two statements.
pub proof fn law_pair_key_order_independent(a: Seq<char>, b: Seq<char>, e1: Seq<char>, e2: Seq<char>)
    ensures
        spec_pair_key((a, b, e1)) == spec_pair_key((b, a, e2)),
{
    lemma_lex_total(normalize(a), normalize(b));
}

/// Kept items are meaningful and no later one is a near-duplicate of an earlier one.
pub open spec fn deduped(s: Seq<ItemView>) -> bool {
    &&& forall|i: int| 0 <= i < s.len() ==> spec_meaningful(#[trigger] s[i])
    &&& forall|i: int, j: int|
        0 <= i < j < s.len() ==> !spec_near_duplicate(#[trigger] s[i], #[trigger] s[j])
}

/// Law: de-duplication leaves meaningful, mutually non-duplicate items, each
/// taken from the input.
pub proof fn law_dedupe_result(s: Seq<ItemView>)
    ensures
        deduped(spec_dedupe(s)),
        spec_dedupe(s).len() <= s.len(),
        forall|i: int| 0 <= i < spec_dedupe(s).len() ==> s.contains(#[trigger] spec_dedupe(s)[i]),
    decreases s.len(),
{
    if s.len() > 0 {
        law_dedupe_result(s.drop_last());
        let prev = spec_dedupe(s.drop_last());
        let d = spec_dedupe(s);
        assert forall|i: int| 0 <= i < d.len() implies s.contains(#[trigger] d[i]) by {
            if i < prev.len() {
                assert(d[i] == prev[i]);
                assert(s.drop_last().contains(prev[i]));
                let k = choose|k: int| 0 <= k < s.drop_last().len() && s.drop_last()[k] == prev[i];
                assert(s[k] == prev[i]);
            } else {
                assert(d[i] == s[s.len() - 1]);
            }
        }
        if spec_meaningful(s.last()) && !dup_of_kept(prev, s.last()) {
            assert forall|i: int, j: int| 0 <= i < j < d.len() implies !spec_near_duplicate(
                #[trigger] d[i],
                #[trigger] d[j],
            ) by {
                if j == d.len() - 1 {
                    assert(d[i] == prev[i]);
                    assert(d[j] == s.last());
                    if spec_near_duplicate(prev[i], s.last()) {
                        assert(dup_of_kept(prev, s.last()));
                    }
                } else {
                    assert(d[i] == prev[i]);
                    assert(d[j] == prev[j]);
                }
            }
            assert forall|i: int| 0 <= i < d.len() implies spec_meaningful(#[trigger] d[i]) by {
                if i < prev.len() {
                    assert(d[i] == prev[i]);
                }
            }
        }
    }
}

proof fn lemma_dedupe_of_deduped(s: Seq<ItemView>)
    requires
        deduped(s),
    ensures
        spec_dedupe(s) == s,
    decreases s.len(),
{
    if s.len() > 0 {
        let p = s.drop_last();
        assert(deduped(p)) by {
            assert forall|i: int, j: int| 0 <= i < j < p.len() implies !spec_near_duplicate(
                #[trigger] p[i],
                #[trigger] p[j],
            ) by {
                assert(p[i] == s[i] && p[j] == s[j]);
            }
            assert forall|i: int| 0 <= i < p.len() implies spec_meaningful(#[trigger] p[i]) by {
                assert(p[i] == s[i]);
            }
        }
        lemma_dedupe_of_deduped(p);
        assert(spec_meaningful(s[s.len() - 1]));
        if dup_of_kept(p, s.last()) {
            let k = choose|k: int| 0 <= k < p.len() && spec_near_duplicate(#[trigger] p[k], s.last());
            assert(p[k] == s[k]);
            assert(!spec_near_duplicate(s[k], s[s.len() - 1]));
        }
        assert(p.push(s.last()) =~= s);
    }
}

/// Law: de-duplication is idempotent.
pub proof fn law_dedupe_idempotent(s: Seq<ItemView>)
    ensures
        spec_dedupe(spec_dedupe(s)) == spec_dedupe(s),
{
    law_dedupe_result(s);
    lemma_dedupe_of_deduped(spec_dedupe(s));
}

/// Law: de-duplication keeps input order and the first of near-duplicates.
/// The result is the input at strictly increasing positions `idx`; every
/// meaningful input item is either kept or a near-duplicate of a kept item
/// that comes before it.
pub proof fn law_dedupe_order_first_wins(s: Seq<ItemView>) -> (idx: Seq<int>)
    ensures
        idx.len() == spec_dedupe(s).len(),
        forall|i: int| 0 <= i < idx.len() ==> 0 <= #[trigger] idx[i] < s.len() && spec_dedupe(s)[i] == s[idx[i]],
        forall|i: int, k: int| 0 <= i < k < idx.len() ==> #[trigger] idx[i] < #[trigger] idx[k],
        forall|j: int|
            0 <= j < s.len() && spec_meaningful(#[trigger] s[j]) ==> (exists|i: int|
                0 <= i < idx.len() && #[trigger] idx[i] == j) || (exists|i: int|
                0 <= i < idx.len() && idx[i] < j && #[trigger] spec_near_duplicate(spec_dedupe(s)[i], s[j])),
    decreases s.len(),
{
    if s.len() == 0 {
        Seq::<int>::empty()
    } else {
        let n = s.len() - 1;
        let pidx = law_dedupe_order_first_wins(s.drop_last());
        let prev = spec_dedupe(s.drop_last());
        let d = spec_dedupe(s);
        let keep = spec_meaningful(s.last()) && !dup_of_kept(prev, s.last());
        let idx = if keep {
            pidx.push(n)
        } else {
            pidx
        };
        assert forall|i: int| 0 <= i < idx.len() implies 0 <= #[trigger] idx[i] < s.len() && d[i] == s[idx[i]] by {
            if i < pidx.len() {
                assert(idx[i] == pidx[i]);
                assert(d[i] == prev[i]);
                assert(s.drop_last()[pidx[i]] == s[pidx[i]]);
            }
        }
        assert forall|i: int, k: int| 0 <= i < k < idx.len() implies #[trigger] idx[i] < #[trigger] idx[k] by {
            if k < pidx.len() {
                assert(idx[i] == pidx[i] && idx[k] == pidx[k]);
            } else {
                assert(idx[i] == pidx[i]);
            }
        }
        assert forall|j: int| 0 <= j < s.len() && spec_meaningful(#[trigger] s[j]) implies (exists|i: int|
            0 <= i < idx.len() && #[trigger] idx[i] == j) || (exists|i: int|
            0 <= i < idx.len() && idx[i] < j && #[trigger] spec_near_duplicate(d[i], s[j])) by {
            if j < n {
                assert(s.drop_last()[j] == s[j]);
                if exists|i: int| 0 <= i < pidx.len() && #[trigger] pidx[i] == j {
                    let i = choose|i: int| 0 <= i < pidx.len() && #[trigger] pidx[i] == j;
                    assert(idx[i] == j);
                } else {
                    let i = choose|i: int|
                        0 <= i < pidx.len() && pidx[i] < j && #[trigger] spec_near_duplicate(prev[i], s.drop_last()[j]);
                    assert(idx[i] == pidx[i]);
                    assert(d[i] == prev[i]);
                    assert(spec_near_duplicate(d[i], s[j]));
                }
            } else {
                if keep {
                    assert(idx[pidx.len() as int] == j);
                } else {
                    let k = choose|k: int| 0 <= k < prev.len() && spec_near_duplicate(#[trigger] prev[k], s.last());
                    assert(idx[k] == pidx[k]);
                    assert(d[k] == prev[k]);
                    assert(spec_near_duplicate(d[k], s[j]));
                }
            }
        }
        idx
    }
}

/// Law: de-duplicated claims number at most `max(limit, 1)`, are each at least
/// 12 normalised characters long, and none contains another (normalised).
pub proof fn law_dedupe_strings_result(s: Seq<Seq<char>>, limit: usize)
    ensures
        spec_dedupe_strings(s, limit).len() <= if limit == 0 {
            1
        } else {
            limit as int
        },
        forall|i: int|
            0 <= i < spec_dedupe_strings(s, limit).len() ==> normalize(
                #[trigger] spec_dedupe_strings(s, limit)[i],
            ).len() >= 12,
        forall|i: int, j: int|
            0 <= i < j < spec_dedupe_strings(s, limit).len() ==> {
                let a = normalize(#[trigger] spec_dedupe_strings(s, limit)[i]);
                let b = normalize(#[trigger] spec_dedupe_strings(s, limit)[j]);
                !(a == b || contains_seq(a, b) || contains_seq(b, a))
            },
    decreases s.len(),
{
    if s.len() > 0 {
        law_dedupe_strings_result(s.drop_last(), limit);
        let prev = spec_dedupe_strings(s.drop_last(), limit);
        let d = spec_dedupe_strings(s, limit);
        let n = normalize(s.last());
        if !(claims_full(prev, limit) || n.len() < min_quote_chars() || claim_overlaps_kept(prev, n)) {
            assert forall|i: int| 0 <= i < d.len() implies normalize(#[trigger] d[i]).len() >= 12 by {
                if i < prev.len() {
                    assert(d[i] == prev[i]);
                }
            }
            assert forall|i: int, j: int| 0 <= i < j < d.len() implies {
                let a = normalize(#[trigger] d[i]);
                let b = normalize(#[trigger] d[j]);
                !(a == b || contains_seq(a, b) || contains_seq(b, a))
            } by {
                assert(d[i] == prev[i]);
                if j < prev.len() {
                    assert(d[j] == prev[j]);
                } else {
                    assert(d[j] == s.last());
                    let kn = normalize(prev[i]);
                    if kn == n || contains_seq(kn, n) || contains_seq(n, kn) {
                        assert(claim_overlaps_kept(prev, n));
                    }
                }
            }
        }
    }
}

/// Law: an empty (after normalisation) summary is never grounded.
pub proof fn law_blank_summary_not_grounded(summary: Seq<char>, source: Seq<char>)
    requires
        normalize(summary).len() == 0,
    ensures
        !spec_summary_grounded(summary, source),
{
}


/// Law: an item is meaningful exactly when both statements are non-empty and
/// different once normalised, and its lower-cased explanation contains none
/// of the phrases that deny a conflict: "do not contradict", "identical",
/// "not contradict", "ziddiyat emas", "bir xil".  An explanation that merely
/// speaks of a contradiction does not make an item meaningless.
pub proof fn law_meaningful_exactly(v: ItemView)
    ensures
        spec_meaningful(v) == ({
            let a = normalize(v.0);
            let b = normalize(v.1);
            let e = spec_str_to_lowercase(v.2);
            &&& a.len() > 0
            &&& b.len() > 0
            &&& a != b
            &&& !contains_seq(e, "do not contradict"@)
            &&& !contains_seq(e, "identical"@)
            &&& !contains_seq(e, "not contradict"@)
            &&& !contains_seq(e, "ziddiyat emas"@)
            &&& !contains_seq(e, "bir xil"@)
        }),
{
}

/// Law: the grounding filter keeps every meaningful item whose two statements
/// are both quoted from the source, drops every other item, and adds nothing.
pub proof fn law_grounding_keeps_exactly(items: Seq<ItemView>, source: Seq<char>)
    ensures
        forall|i: int|
            0 <= i < items.len() && spec_meaningful(#[trigger] items[i]) && spec_quote_in_source(
                items[i].0,
                source,
            ) && spec_quote_in_source(items[i].1, source) ==> items.filter(
                grounded_view(source),
            ).contains(items[i]),
        forall|x: ItemView|
            #[trigger] items.filter(grounded_view(source)).contains(x) ==> items.contains(x)
                && spec_meaningful(x) && spec_quote_in_source(x.0, source) && spec_quote_in_source(
                x.1,
                source,
            ),
{
    let f = grounded_view(source);
    assert forall|i: int|
        0 <= i < items.len() && spec_meaningful(#[trigger] items[i]) && spec_quote_in_source(
            items[i].0,
            source,
        ) && spec_quote_in_source(items[i].1, source) implies items.filter(f).contains(items[i]) by {
        items.lemma_filter_contains(f, i);
    }
    assert forall|x: ItemView| #[trigger] items.filter(f).contains(x) implies items.contains(x)
        && spec_meaningful(x) && spec_quote_in_source(x.0, source) && spec_quote_in_source(
        x.1,
        source,
    ) by {
        items.lemma_filter_contains_rev(f, x);
        let k = choose|k: int| 0 <= k < items.filter(f).len() && items.filter(f)[k] == x;
        items.lemma_filter_pred(f, k);
    }
}

} // verus!
