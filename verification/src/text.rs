//! Character-level text primitives shared by the chunker, the prompt builders
//! and the grounding checks.  Strings are modelled by their character sequences.

use vstd::prelude::*;

verus! {

pub assume_specification[ String::push ](s: &mut String, ch: char)
    ensures
        final(s)@ == old(s)@.push(ch),
;

// ---------------------------------------------------------------------------
// Conversions between `&str`, `String` and `Vec<char>`.
// ---------------------------------------------------------------------------

/// The characters of `s`, in order.
pub fn chars_of(s: &str) -> (v: Vec<char>)
    ensures
        v@ == s@,
{
    let mut v: Vec<char> = Vec::new();
    for c in it: s.chars()
        invariant
            v@ == it.seq().take(it.index() as int),
    {
        v.push(c);
    }
    v
}

/// A `String` holding exactly the characters of `v`.
pub fn string_of(v: &Vec<char>) -> (s: String)
    ensures
        s@ == v@,
{
    let mut s = String::new();
    let mut i: usize = 0;
    while i < v.len()
        invariant
            i <= v.len(),
            s@ == v@.take(i as int),
        decreases v.len() - i,
    {
        s.push(v[i]);
        assert(v@.take(i + 1) =~= v@.take(i as int).push(v@[i as int]));
        i = i + 1;
    }
    assert(v@.take(v.len() as int) =~= v@);
    s
}

/// A `String` holding the characters of `a` followed by those of `b`.
pub fn concat_str(a: &str, b: &str) -> (s: String)
    ensures
        s@ == a@ + b@,
{
    let mut s = String::from_str(a);
    s.append(b);
    s
}

/// Appends the characters of `v` to `v_out`.
pub fn extend_chars(out: &mut Vec<char>, v: &Vec<char>)
    ensures
        final(out)@ == old(out)@ + v@,
{
    let mut i: usize = 0;
    while i < v.len()
        invariant
            i <= v.len(),
            out@ == old(out)@ + v@.take(i as int),
        decreases v.len() - i,
    {
        out.push(v[i]);
        assert(v@.take(i + 1) =~= v@.take(i as int).push(v@[i as int]));
        i = i + 1;
    }
    assert(v@.take(v.len() as int) =~= v@);
}

/// Appends the characters of `s` to `out`.
pub fn extend_str(out: &mut Vec<char>, s: &str)
    ensures
        final(out)@ == old(out)@ + s@,
{
    let v = chars_of(s);
    extend_chars(out, &v);
}

/// Sequence equality of two character vectors.
pub fn chars_eq(a: &Vec<char>, b: &Vec<char>) -> (r: bool)
    ensures
        r == (a@ == b@),
{
    if a.len() != b.len() {
        return false;
    }
    let mut i: usize = 0;
    while i < a.len()
        invariant
            i <= a.len(),
            a.len() == b.len(),
            forall|k: int| 0 <= k < i ==> a@[k] == b@[k],
        decreases a.len() - i,
    {
        if a[i] != b[i] {
            return false;
        }
        i = i + 1;
    }
    assert(a@ =~= b@);
    true
}

// ---------------------------------------------------------------------------
// Whitespace (the Unicode `White_Space` property, as `char::is_whitespace`).
// ---------------------------------------------------------------------------

/// The Unicode `White_Space` property.
pub open spec fn is_ws(c: char) -> bool {
    ||| c == ' '
    ||| ('\u{9}' <= c && c <= '\u{d}')
    ||| c == '\u{85}'
    ||| c == '\u{a0}'
    ||| c == '\u{1680}'
    ||| ('\u{2000}' <= c && c <= '\u{200a}')
    ||| c == '\u{2028}'
    ||| c == '\u{2029}'
    ||| c == '\u{202f}'
    ||| c == '\u{205f}'
    ||| c == '\u{3000}'
}

pub fn is_whitespace(c: char) -> (b: bool)
    ensures
        b == is_ws(c),
{
    c == ' ' || ('\u{9}' <= c && c <= '\u{d}') || c == '\u{85}' || c == '\u{a0}' || c == '\u{1680}'
        || ('\u{2000}' <= c && c <= '\u{200a}') || c == '\u{2028}' || c == '\u{2029}' || c
        == '\u{202f}' || c == '\u{205f}' || c == '\u{3000}'
}

/// `s` without its leading whitespace.
pub open spec fn trim_start(s: Seq<char>) -> Seq<char>
    decreases s.len(),
{
    if s.len() > 0 && is_ws(s[0]) {
        trim_start(s.drop_first())
    } else {
        s
    }
}

/// `s` without its trailing whitespace.
pub open spec fn trim_end(s: Seq<char>) -> Seq<char>
    decreases s.len(),
{
    if s.len() > 0 && is_ws(s.last()) {
        trim_end(s.drop_last())
    } else {
        s
    }
}

/// `s` without leading and trailing whitespace (`str::trim`).
pub open spec fn trim(s: Seq<char>) -> Seq<char> {
    trim_end(trim_start(s))
}

/// No whitespace at either end.
pub open spec fn is_trimmed(s: Seq<char>) -> bool {
    s.len() > 0 ==> !is_ws(s[0]) && !is_ws(s.last())
}

pub proof fn lemma_trim_start_skip(s: Seq<char>, i: int)
    requires
        0 <= i <= s.len(),
        forall|k: int| 0 <= k < i ==> is_ws(s[k]),
    ensures
        trim_start(s) == trim_start(s.skip(i)),
    decreases i,
{
    if i > 0 {
        assert(s.drop_first().skip(i - 1) =~= s.skip(i));
        lemma_trim_start_skip(s.drop_first(), i - 1);
    } else {
        assert(s.skip(0) =~= s);
    }
}

pub proof fn lemma_trim_end_take(s: Seq<char>, j: int)
    requires
        0 <= j <= s.len(),
        forall|k: int| j <= k < s.len() ==> is_ws(s[k]),
    ensures
        trim_end(s) == trim_end(s.take(j)),
    decreases s.len() - j,
{
    if j < s.len() {
        assert(s.drop_last().take(j) =~= s.take(j));
        lemma_trim_end_take(s.drop_last(), j);
    } else {
        assert(s.take(j) =~= s);
    }
}

pub proof fn lemma_trim_shape(s: Seq<char>)
    ensures
        is_trimmed(trim(s)),
        trim(s).len() <= s.len(),
        trim(s).len() == 0 <==> (forall|k: int| 0 <= k < s.len() ==> is_ws(s[k])),
        exists|i: int|
            0 <= i <= s.len() - trim(s).len() && #[trigger] s.subrange(i, i + trim(s).len())
                == trim(s),
{
    lemma_trim_start_shape(s);
    let t = trim_start(s);
    lemma_trim_end_shape(t);
    let i = (s.len() - t.len()) as int;
    assert(s.subrange(i, i + trim(s).len()) =~= trim(s));
    if trim(s).len() == 0 {
        assert forall|k: int| 0 <= k < s.len() implies is_ws(s[k]) by {
            if k < i {
            } else {
                assert(t[k - i] == s[k]);
            }
        }
    }
    if forall|k: int| 0 <= k < s.len() ==> is_ws(s[k]) {
        if t.len() > 0 {
            assert(t[0] == s[i]);
        }
    }
}

proof fn lemma_trim_start_shape(s: Seq<char>)
    ensures
        trim_start(s).len() <= s.len(),
        trim_start(s) == s.skip(s.len() - trim_start(s).len()),
        trim_start(s).len() > 0 ==> !is_ws(trim_start(s)[0]),
        forall|k: int| 0 <= k < s.len() - trim_start(s).len() ==> is_ws(s[k]),
    decreases s.len(),
{
    if s.len() > 0 && is_ws(s[0]) {
        lemma_trim_start_shape(s.drop_first());
        let t = trim_start(s.drop_first());
        assert(s.drop_first().skip(s.drop_first().len() - t.len()) =~= s.skip(s.len() - t.len()));
        assert forall|k: int| 0 <= k < s.len() - t.len() implies is_ws(s[k]) by {
            if k > 0 {
                assert(s.drop_first()[k - 1] == s[k]);
            }
        }
    } else {
        assert(s.skip(0) =~= s);
    }
}

proof fn lemma_trim_end_shape(s: Seq<char>)
    ensures
        trim_end(s).len() <= s.len(),
        trim_end(s) == s.take(trim_end(s).len() as int),
        trim_end(s).len() > 0 ==> !is_ws(trim_end(s).last()),
        trim_end(s).len() > 0 ==> trim_end(s)[0] == s[0],
        forall|k: int| trim_end(s).len() <= k < s.len() ==> is_ws(s[k]),
        trim_end(s).len() == 0 ==> (forall|k: int| 0 <= k < s.len() ==> is_ws(s[k])),
    decreases s.len(),
{
    if s.len() > 0 && is_ws(s.last()) {
        lemma_trim_end_shape(s.drop_last());
        let t = trim_end(s.drop_last());
        assert(s.drop_last().take(t.len() as int) =~= s.take(t.len() as int));
        assert forall|k: int| t.len() <= k < s.len() implies is_ws(s[k]) by {
            if k < s.len() - 1 {
                assert(s.drop_last()[k] == s[k]);
            }
        }
    } else {
        assert(s.take(s.len() as int) =~= s);
    }
}

/// Index of the first non-whitespace character of `v` at or after `from`, or `v.len()`.
fn skip_ws_forward(v: &Vec<char>, from: usize) -> (i: usize)
    requires
        from <= v.len(),
    ensures
        from <= i <= v.len(),
        forall|k: int| from <= k < i ==> is_ws(v@[k]),
        i < v.len() ==> !is_ws(v@[i as int]),
{
    let mut i = from;
    while i < v.len() && is_whitespace(v[i])
        invariant
            from <= i <= v.len(),
            forall|k: int| from <= k < i ==> is_ws(v@[k]),
        decreases v.len() - i,
    {
        i = i + 1;
    }
    i
}

/// `str::trim` on a character vector.
pub fn trim_chars(v: &Vec<char>) -> (r: Vec<char>)
    ensures
        r@ == trim(v@),
{
    let i = skip_ws_forward(v, 0);
    proof {
        lemma_trim_start_skip(v@, i as int);
    }
    let mut j = v.len();
    while j > i && is_whitespace(v[j - 1])
        invariant
            i <= j <= v.len(),
            forall|k: int| j <= k < v.len() ==> is_ws(v@[k]),
        decreases j,
    {
        j = j - 1;
    }
    let mut r: Vec<char> = Vec::new();
    let mut k = i;
    while k < j
        invariant
            i <= k <= j,
            j <= v.len(),
            r@ == v@.subrange(i as int, k as int),
        decreases j - k,
    {
        r.push(v[k]);
        assert(v@.subrange(i as int, k + 1) =~= v@.subrange(i as int, k as int).push(v@[k as int]));
        k = k + 1;
    }
    proof {
        let s = v@.skip(i as int);
        if i < v.len() {
            assert(s[0] == v@[i as int]);
        } else {
            assert(s.len() == 0);
        }
        assert(trim_start(s) == s) by {
            if s.len() > 0 {
                assert(!is_ws(s[0]));
            }
        }
        let jj = (j - i) as int;
        assert forall|k: int| jj <= k < s.len() implies is_ws(s[k]) by {
            assert(s[k] == v@[k + i]);
        }
        lemma_trim_end_take(s, jj);
        let t = s.take(jj);
        assert(t =~= v@.subrange(i as int, j as int));
        if jj > 0 {
            assert(t.last() == v@[j - 1]);
            assert(!is_ws(t.last()));
        }
        assert(trim_end(t) == t);
    }
    r
}

/// `str::trim` on a string slice.
pub fn trim_str(s: &str) -> (r: Vec<char>)
    ensures
        r@ == trim(s@),
{
    let v = chars_of(s);
    trim_chars(&v)
}

// ---------------------------------------------------------------------------
// Whitespace-separated words (`str::split_whitespace`) and their collapse.
// ---------------------------------------------------------------------------

/// The character sequences held by a sequence of character vectors.
pub open spec fn views(v: Seq<Vec<char>>) -> Seq<Seq<char>> {
    Seq::new(v.len(), |i: int| v[i]@)
}

/// The character sequences held by a sequence of strings.
pub open spec fn string_views(v: Seq<String>) -> Seq<Seq<char>> {
    Seq::new(v.len(), |i: int| v[i]@)
}

/// Left-to-right scan of `s`: the words completed so far and the word in progress.
pub open spec fn ws_scan(s: Seq<char>) -> (Seq<Seq<char>>, Seq<char>)
    decreases s.len(),
{
    if s.len() == 0 {
        (seq![], seq![])
    } else {
        let (done, cur) = ws_scan(s.drop_last());
        if is_ws(s.last()) {
            if cur.len() > 0 {
                (done.push(cur), seq![])
            } else {
                (done, seq![])
            }
        } else {
            (done, cur.push(s.last()))
        }
    }
}

/// The maximal whitespace-free runs of `s`, in order (`str::split_whitespace`).
pub open spec fn words(s: Seq<char>) -> Seq<Seq<char>> {
    let (done, cur) = ws_scan(s);
    if cur.len() > 0 {
        done.push(cur)
    } else {
        done
    }
}

/// `parts` joined with `sep` between neighbours (`[T]::join`).
pub open spec fn join(parts: Seq<Seq<char>>, sep: Seq<char>) -> Seq<char>
    decreases parts.len(),
{
    if parts.len() == 0 {
        seq![]
    } else if parts.len() == 1 {
        parts[0]
    } else {
        join(parts.drop_last(), sep) + sep + parts.last()
    }
}

/// The words of `s` joined by single spaces.
pub open spec fn collapse(s: Seq<char>) -> Seq<char> {
    join(words(s), seq![' '])
}

/// Each word is non-empty and free of whitespace.
pub open spec fn all_words_clean(ws: Seq<Seq<char>>) -> bool {
    forall|k: int|
        0 <= k < ws.len() ==> #[trigger] ws[k].len() > 0 && (forall|m: int|
            0 <= m < ws[k].len() ==> !is_ws(ws[k][m]))
}

pub proof fn lemma_ws_scan_clean(s: Seq<char>)
    ensures
        all_words_clean(ws_scan(s).0),
        forall|m: int| 0 <= m < ws_scan(s).1.len() ==> !is_ws(ws_scan(s).1[m]),
        all_words_clean(words(s)),
    decreases s.len(),
{
    if s.len() > 0 {
        lemma_ws_scan_clean(s.drop_last());
    }
}

pub proof fn lemma_join_push(parts: Seq<Seq<char>>, sep: Seq<char>, p: Seq<char>)
    ensures
        join(parts.push(p), sep) == if parts.len() == 0 {
            p
        } else {
            join(parts, sep) + sep + p
        },
{
    assert(parts.push(p).drop_last() =~= parts);
}

/// A text made only of whitespace has no words and no word in progress.
pub proof fn lemma_ws_scan_blank(w: Seq<char>)
    requires
        forall|m: int| 0 <= m < w.len() ==> is_ws(w[m]),
    ensures
        ws_scan(w).0 == Seq::<Seq<char>>::empty(),
        ws_scan(w).1 == Seq::<char>::empty(),
    decreases w.len(),
{
    if w.len() > 0 {
        lemma_ws_scan_blank(w.drop_last());
        assert(is_ws(w[w.len() - 1]));
    }
}

/// Leading whitespace does not change the scan.
pub proof fn lemma_ws_scan_blank_prefix(w: Seq<char>, x: Seq<char>)
    requires
        forall|m: int| 0 <= m < w.len() ==> is_ws(w[m]),
    ensures
        ws_scan(w + x) == ws_scan(x),
    decreases x.len(),
{
    if x.len() == 0 {
        assert(w + x =~= w);
        lemma_ws_scan_blank(w);
        assert(ws_scan(x).0 =~= Seq::<Seq<char>>::empty());
        assert(ws_scan(x).1 =~= Seq::<char>::empty());
    } else {
        assert((w + x).drop_last() =~= w + x.drop_last());
        assert((w + x).last() == x.last());
        lemma_ws_scan_blank_prefix(w, x.drop_last());
    }
}

/// Leading whitespace does not change the words.
pub proof fn lemma_words_blank_prefix(w: Seq<char>, x: Seq<char>)
    requires
        forall|m: int| 0 <= m < w.len() ==> is_ws(w[m]),
    ensures
        words(w + x) == words(x),
{
    lemma_ws_scan_blank_prefix(w, x);
}

/// A whitespace-only text has no words.
pub proof fn lemma_words_blank(w: Seq<char>)
    requires
        forall|m: int| 0 <= m < w.len() ==> is_ws(w[m]),
    ensures
        words(w) == Seq::<Seq<char>>::empty(),
{
    lemma_ws_scan_blank(w);
}

proof fn lemma_ws_scan_split(a: Seq<char>, b: Seq<char>)
    requires
        b.len() > 0,
        is_ws(b[0]),
    ensures
        ws_scan(a + b).0 == words(a) + ws_scan(b).0,
        ws_scan(a + b).1 == ws_scan(b).1,
    decreases b.len(),
{
    if b.len() == 1 {
        assert((a + b).drop_last() =~= a);
        assert((a + b).last() == b[0]);
        assert(b.drop_last() =~= Seq::<char>::empty());
        assert(words(a) + Seq::<Seq<char>>::empty() =~= words(a));
    } else {
        assert((a + b).drop_last() =~= a + b.drop_last());
        assert((a + b).last() == b.last());
        assert(b.drop_last()[0] == b[0]);
        lemma_ws_scan_split(a, b.drop_last());
        let (d, c) = ws_scan(b.drop_last());
        assert((words(a) + d).push(c) =~= words(a) + d.push(c));
    }
}

/// Words of two texts split at whitespace are the words of each, in order.
pub proof fn lemma_words_concat(a: Seq<char>, b: Seq<char>)
    requires
        b.len() == 0 || is_ws(b[0]),
    ensures
        words(a + b) == words(a) + words(b),
{
    if b.len() == 0 {
        assert(a + b =~= a);
        assert(ws_scan(b).0 =~= Seq::<Seq<char>>::empty());
        assert(words(a) + words(b) =~= words(a));
    } else {
        lemma_ws_scan_split(a, b);
        let (d, c) = ws_scan(b);
        assert((words(a) + d).push(c) =~= words(a) + d.push(c));
    }
}

/// Trimming keeps the words.
pub proof fn lemma_words_trim(s: Seq<char>)
    ensures
        words(trim(s)) == words(s),
{
    lemma_trim_start_shape(s);
    let t = trim_start(s);
    let p = s.len() - t.len();
    assert(s =~= s.take(p) + t);
    lemma_words_blank_prefix(s.take(p), t);
    lemma_trim_end_shape(t);
    let q = trim_end(t).len() as int;
    assert(t =~= t.take(q) + t.skip(q));
    if q < t.len() {
        assert(t.skip(q)[0] == t[q]);
    }
    lemma_words_concat(t.take(q), t.skip(q));
    lemma_words_blank(t.skip(q));
    assert(words(t.take(q)) + Seq::<Seq<char>>::empty() =~= words(t.take(q)));
}

/// A text is its trim with whitespace before and after it.
pub proof fn lemma_trim_parts(s: Seq<char>) -> (p: int)
    ensures
        0 <= p,
        p + trim(s).len() <= s.len(),
        s == s.take(p) + trim(s) + s.skip(p + trim(s).len()),
        forall|k: int| 0 <= k < p ==> is_ws(#[trigger] s[k]),
        forall|k: int| p + trim(s).len() <= k < s.len() ==> is_ws(#[trigger] s[k]),
{
    lemma_trim_start_shape(s);
    let t = trim_start(s);
    let p = s.len() - t.len();
    lemma_trim_end_shape(t);
    let q = trim_end(t).len() as int;
    assert(s =~= s.take(p) + trim(s) + s.skip(p + q));
    assert forall|k: int| p + q <= k < s.len() implies is_ws(#[trigger] s[k]) by {
        assert(s[k] == t[k - p]);
    }
    p
}

/// A single word without whitespace is its own only word.
proof fn lemma_words_single(w: Seq<char>)
    requires
        w.len() > 0,
        forall|m: int| 0 <= m < w.len() ==> !is_ws(w[m]),
    ensures
        ws_scan(w).0 == Seq::<Seq<char>>::empty(),
        ws_scan(w).1 == w,
        words(w) == seq![w],
    decreases w.len(),
{
    assert(!is_ws(w[w.len() - 1]));
    if w.len() == 1 {
        assert(w.drop_last() =~= Seq::<char>::empty());
        assert(ws_scan(w.drop_last()).0 =~= Seq::<Seq<char>>::empty());
        assert(ws_scan(w.drop_last()).1 =~= Seq::<char>::empty());
        assert(Seq::<char>::empty().push(w[0]) =~= w);
    } else {
        let init = w.drop_last();
        assert forall|m: int| 0 <= m < init.len() implies !is_ws(init[m]) by {
            assert(init[m] == w[m]);
        }
        lemma_words_single(init);
        assert(init.push(w.last()) =~= w);
    }
}

/// The words of each text, one after another.
pub open spec fn flat_words(ps: Seq<Seq<char>>) -> Seq<Seq<char>>
    decreases ps.len(),
{
    if ps.len() == 0 {
        seq![]
    } else {
        flat_words(ps.drop_last()) + words(ps.last())
    }
}

pub proof fn lemma_flat_words_concat(a: Seq<Seq<char>>, b: Seq<Seq<char>>)
    ensures
        flat_words(a + b) == flat_words(a) + flat_words(b),
    decreases b.len(),
{
    if b.len() == 0 {
        assert(a + b =~= a);
        assert(flat_words(a) + flat_words(b) =~= flat_words(a));
    } else {
        assert((a + b).drop_last() =~= a + b.drop_last());
        assert((a + b).last() == b.last());
        lemma_flat_words_concat(a, b.drop_last());
        assert(flat_words(a) + (flat_words(b.drop_last()) + words(b.last())) =~= (flat_words(a)
            + flat_words(b.drop_last())) + words(b.last()));
    }
}

pub proof fn lemma_flat_words_single(t: Seq<char>)
    ensures
        flat_words(seq![t]) == words(t),
{
    let one = seq![t];
    assert(one.drop_last() =~= Seq::<Seq<char>>::empty());
    assert(one.last() == t);
    assert(flat_words(one.drop_last()) =~= Seq::<Seq<char>>::empty());
    assert(Seq::<Seq<char>>::empty() + words(t) =~= words(t));
}

proof fn lemma_ws_scan_nonempty(s: Seq<char>, i: int)
    requires
        0 <= i < s.len(),
        !is_ws(s[i]),
    ensures
        ws_scan(s).0.len() > 0 || ws_scan(s).1.len() > 0,
    decreases s.len(),
{
    if i < s.len() - 1 {
        assert(s.drop_last()[i] == s[i]);
        lemma_ws_scan_nonempty(s.drop_last(), i);
    }
}

/// A text with a non-whitespace character has a word.
pub proof fn lemma_words_nonempty(s: Seq<char>, i: int)
    requires
        0 <= i < s.len(),
        !is_ws(s[i]),
    ensures
        words(s).len() > 0,
{
    lemma_ws_scan_nonempty(s, i);
}

/// When one of the texts has a word, so do all of them together.
pub proof fn lemma_flat_words_nonempty(ps: Seq<Seq<char>>, k: int)
    requires
        0 <= k < ps.len(),
        words(ps[k]).len() > 0,
    ensures
        flat_words(ps).len() > 0,
    decreases ps.len(),
{
    if k < ps.len() - 1 {
        assert(ps.drop_last()[k] == ps[k]);
        lemma_flat_words_nonempty(ps.drop_last(), k);
    }
}

/// Joining texts with single spaces keeps each text's words, in order, and
/// fuses none across the joins.
pub proof fn lemma_words_join_space(ps: Seq<Seq<char>>)
    ensures
        words(join(ps, seq![' '])) == flat_words(ps),
    decreases ps.len(),
{
    if ps.len() == 0 {
        lemma_words_blank(Seq::<char>::empty());
    } else if ps.len() == 1 {
        assert(ps.drop_last() =~= Seq::<Seq<char>>::empty());
        assert(flat_words(ps.drop_last()) =~= Seq::<Seq<char>>::empty());
        assert(Seq::<Seq<char>>::empty() + words(ps[0]) =~= words(ps[0]));
    } else {
        lemma_words_join_space(ps.drop_last());
        let j = join(ps.drop_last(), seq![' ']);
        let b = seq![' '] + ps.last();
        assert(join(ps, seq![' ']) =~= j + b);
        assert(b[0] == ' ');
        lemma_words_concat(j, b);
        lemma_words_blank_prefix(seq![' '], ps.last());
    }
}

/// Collapsing twice is collapsing once.
pub proof fn lemma_collapse_idempotent(s: Seq<char>)
    ensures
        collapse(collapse(s)) == collapse(s),
        words(collapse(s)) == words(s),
{
    lemma_words_collapse(s);
}

/// After a text with no word in progress, the scan of what follows goes on
/// from scratch.
pub proof fn lemma_ws_scan_after_blank(a: Seq<char>, b: Seq<char>)
    requires
        ws_scan(a).1.len() == 0,
    ensures
        ws_scan(a + b).0 == ws_scan(a).0 + ws_scan(b).0,
        ws_scan(a + b).1 == ws_scan(b).1,
    decreases b.len(),
{
    if b.len() == 0 {
        assert(a + b =~= a);
        assert(ws_scan(a).1 =~= Seq::<char>::empty());
        assert(ws_scan(a).0 + ws_scan(b).0 =~= ws_scan(a).0);
    } else {
        assert((a + b).drop_last() =~= a + b.drop_last());
        assert((a + b).last() == b.last());
        lemma_ws_scan_after_blank(a, b.drop_last());
        let (d, c) = ws_scan(b.drop_last());
        assert((ws_scan(a).0 + d).push(c) =~= ws_scan(a).0 + d.push(c));
    }
}

/// Words of two texts, the first ending with no word in progress.
pub proof fn lemma_words_after_blank(a: Seq<char>, b: Seq<char>)
    requires
        ws_scan(a).1.len() == 0,
    ensures
        words(a + b) == words(a) + words(b),
{
    lemma_ws_scan_after_blank(a, b);
    let (d, c) = ws_scan(b);
    assert((ws_scan(a).0 + d).push(c) =~= ws_scan(a).0 + d.push(c));
}

/// Collapsing whitespace keeps the words.
pub proof fn lemma_words_collapse(s: Seq<char>)
    ensures
        words(collapse(s)) == words(s),
{
    lemma_ws_scan_clean(s);
    lemma_words_join_clean(words(s));
}

proof fn lemma_words_join_clean(ws: Seq<Seq<char>>)
    requires
        all_words_clean(ws),
    ensures
        words(join(ws, seq![' '])) == ws,
    decreases ws.len(),
{
    if ws.len() == 0 {
        assert(ws_scan(Seq::<char>::empty()).0 =~= Seq::<Seq<char>>::empty());
        assert(words(join(ws, seq![' '])) =~= ws);
    } else {
        let w = ws.last();
        assert(w.len() > 0 && forall|m: int| 0 <= m < w.len() ==> !is_ws(w[m])) by {
            assert(ws[ws.len() - 1].len() > 0);
        }
        lemma_words_single(w);
        if ws.len() == 1 {
            assert(seq![w] =~= ws);
        } else {
            let init = ws.drop_last();
            assert(all_words_clean(init)) by {
                assert forall|k: int| 0 <= k < init.len() implies #[trigger] init[k].len() > 0 && (forall|m: int|
                    0 <= m < init[k].len() ==> !is_ws(init[k][m])) by {
                    assert(init[k] == ws[k]);
                    assert(ws[k].len() > 0);
                }
            }
            lemma_words_join_clean(init);
            let j = join(init, seq![' ']);
            assert(join(ws, seq![' ']) =~= j + (seq![' '] + w));
            assert((seq![' '] + w)[0] == ' ');
            assert(is_ws(' '));
            lemma_words_concat(j, seq![' '] + w);
            lemma_words_blank_prefix(seq![' '], w);
            assert(init + seq![w] =~= ws);
        }
    }
}

/// `str::split_whitespace` on a character vector.
pub fn words_of(v: &Vec<char>) -> (r: Vec<Vec<char>>)
    ensures
        views(r@) == words(v@),
{
    let mut done: Vec<Vec<char>> = Vec::new();
    let mut cur: Vec<char> = Vec::new();
    let mut i: usize = 0;
    while i < v.len()
        invariant
            i <= v.len(),
            (views(done@), cur@) == ws_scan(v@.take(i as int)),
        decreases v.len() - i,
    {
        assert(v@.take(i + 1).drop_last() =~= v@.take(i as int));
        let c = v[i];
        if is_whitespace(c) {
            if cur.len() > 0 {
                let w = cur;
                done.push(w);
                assert(views(done@) =~= ws_scan(v@.take(i as int)).0.push(w@));
                cur = Vec::new();
            } else {
                cur = Vec::new();
            }
        } else {
            cur.push(c);
        }
        i = i + 1;
    }
    assert(v@.take(v.len() as int) =~= v@);
    if cur.len() > 0 {
        let w = cur;
        done.push(w);
        assert(views(done@) =~= ws_scan(v@).0.push(w@));
    }
    done
}

/// Collapses every whitespace run of `v` to one space and drops leading and
/// trailing whitespace (`split_whitespace` joined by `" "`).
pub fn collapse_chars(v: &Vec<char>) -> (r: Vec<char>)
    ensures
        r@ == collapse(v@),
{
    let ws = words_of(v);
    assert(views(ws@).subrange(0, ws@.len() as int) =~= views(ws@));
    join_words(&ws, 0, ws.len(), ' ')
}

/// The words `ws[lo..hi]` joined by `sep`.
pub fn join_words(ws: &Vec<Vec<char>>, lo: usize, hi: usize, sep: char) -> (r: Vec<char>)
    requires
        lo <= hi <= ws.len(),
    ensures
        r@ == join(views(ws@).subrange(lo as int, hi as int), seq![sep]),
{
    let mut r: Vec<char> = Vec::new();
    let mut k = lo;
    let ghost dv = views(ws@);
    while k < hi
        invariant
            lo <= k <= hi <= ws.len(),
            dv == views(ws@),
            r@ == join(dv.subrange(lo as int, k as int), seq![sep]),
        decreases hi - k,
    {
        proof {
            lemma_join_push(dv.subrange(lo as int, k as int), seq![sep], dv[k as int]);
            assert(dv.subrange(lo as int, k as int).push(dv[k as int]) =~= dv.subrange(
                lo as int,
                k + 1,
            ));
        }
        if k > lo {
            r.push(sep);
        }
        extend_chars(&mut r, &ws[k]);
        proof {
            if k > lo {
                assert(r@ =~= join(dv.subrange(lo as int, k as int), seq![sep]) + seq![sep]
                    + dv[k as int]);
            } else {
                assert(dv.subrange(lo as int, k as int).len() == 0);
            }
        }
        k = k + 1;
    }
    r
}

/// `str::split_whitespace` joined by single spaces, on a string slice.
pub fn collapse_ws(s: &str) -> (r: String)
    ensures
        r@ == collapse(s@),
{
    let v = chars_of(s);
    let c = collapse_chars(&v);
    string_of(&c)
}

// ---------------------------------------------------------------------------
// Substring search, lexicographic order, decimal rendering.
// ---------------------------------------------------------------------------

/// `needle` occurs as a contiguous block of `hay` (`str::contains`).
pub open spec fn contains_seq(hay: Seq<char>, needle: Seq<char>) -> bool {
    exists|i: int|
        0 <= i && i + needle.len() <= hay.len() && #[trigger] hay.subrange(i, i + needle.len())
            == needle
}

pub fn contains_chars(hay: &Vec<char>, needle: &Vec<char>) -> (r: bool)
    ensures
        r == contains_seq(hay@, needle@),
{
    if needle.len() > hay.len() {
        return false;
    }
    let last = hay.len() - needle.len();
    let mut i: usize = 0;
    while i <= last
        invariant
            last == hay.len() - needle.len(),
            needle.len() <= hay.len(),
            i <= last + 1,
            forall|p: int| 0 <= p < i ==> #[trigger] hay@.subrange(p, p + needle.len()) != needle@,
        decreases last + 1 - i,
    {
        let mut j: usize = 0;
        while j < needle.len() && hay[i + j] == needle[j]
            invariant
                j <= needle.len(),
                i <= last,
                last == hay.len() - needle.len(),
                forall|m: int| 0 <= m < j ==> hay@[i + m] == needle@[m],
            decreases needle.len() - j,
        {
            j = j + 1;
        }
        if j == needle.len() {
            assert(hay@.subrange(i as int, i + needle.len()) =~= needle@);
            return true;
        }
        assert(hay@.subrange(i as int, i + needle.len())[j as int] != needle@[j as int]);
        i = i + 1;
    }
    false
}

/// `s` with every occurrence of the non-empty `pat`, found left to right
/// without overlap, replaced by `rep` (`str::replace`).
pub open spec fn replace_all(s: Seq<char>, pat: Seq<char>, rep: Seq<char>) -> Seq<char>
    decreases s.len(),
{
    if s.len() == 0 {
        seq![]
    } else if 0 < pat.len() <= s.len() && s.take(pat.len() as int) == pat {
        rep + replace_all(s.skip(pat.len() as int), pat, rep)
    } else {
        seq![s[0]] + replace_all(s.skip(1), pat, rep)
    }
}

/// Whether `pat` occurs in `s` at index `i`.
fn occurs_at(s: &Vec<char>, i: usize, pat: &Vec<char>) -> (r: bool)
    requires
        i <= s@.len(),
    ensures
        r == (pat@.len() <= s@.len() - i && s@.skip(i as int).take(pat@.len() as int) == pat@),
{
    if pat.len() > s.len() - i {
        return false;
    }
    let n = s.len();
    let mut j: usize = 0;
    while j < pat.len()
        invariant
            j <= pat@.len(),
            n == s@.len(),
            i <= s@.len(),
            pat@.len() <= s@.len() - i,
            forall|m: int| 0 <= m < j ==> s@[i + m] == pat@[m],
        decreases pat@.len() - j,
    {
        if s[i + j] != pat[j] {
            assert(s@.skip(i as int).take(pat@.len() as int)[j as int] != pat@[j as int]);
            return false;
        }
        j = j + 1;
    }
    assert(s@.skip(i as int).take(pat@.len() as int) =~= pat@);
    true
}

/// `str::replace` with a non-empty pattern.
pub fn replace_str(s: &str, pat: &str, rep: &str) -> (r: String)
    requires
        pat@.len() > 0,
    ensures
        r@ == replace_all(s@, pat@, rep@),
{
    let v = chars_of(s);
    let p = chars_of(pat);
    let mut out: Vec<char> = Vec::new();
    let mut i: usize = 0;
    assert(v@.skip(0) =~= v@);
    while i < v.len()
        invariant
            i <= v@.len(),
            v@ == s@,
            p@ == pat@,
            p@.len() > 0,
            out@ + replace_all(v@.skip(i as int), p@, rep@) == replace_all(v@, p@, rep@),
        decreases v@.len() - i,
    {
        let ghost rest = v@.skip(i as int);
        if occurs_at(&v, i, &p) {
            assert(rest.skip(p@.len() as int) =~= v@.skip(i + p@.len()));
            extend_str(&mut out, rep);
            i = i + p.len();
        } else {
            assert(rest.skip(1) =~= v@.skip(i + 1));
            assert(rest[0] == v@[i as int]);
            out.push(v[i]);
            i = i + 1;
        }
    }
    assert(v@.skip(i as int).len() == 0);
    string_of(&out)
}

/// `a` is lexicographically at most `b`, comparing code points (`str` ordering).
pub open spec fn lex_le(a: Seq<char>, b: Seq<char>) -> bool
    decreases a.len(),
{
    if a.len() == 0 {
        true
    } else if b.len() == 0 {
        false
    } else if a[0] < b[0] {
        true
    } else if a[0] > b[0] {
        false
    } else {
        lex_le(a.drop_first(), b.drop_first())
    }
}

pub fn lex_le_chars(a: &Vec<char>, b: &Vec<char>) -> (r: bool)
    ensures
        r == lex_le(a@, b@),
{
    let mut i: usize = 0;
    assert(a@.skip(0) =~= a@);
    assert(b@.skip(0) =~= b@);
    while i < a.len() && i < b.len() && a[i] == b[i]
        invariant
            i <= a.len(),
            i <= b.len(),
            lex_le(a@, b@) == lex_le(a@.skip(i as int), b@.skip(i as int)),
        decreases a.len() - i,
    {
        assert(a@.skip(i as int).drop_first() =~= a@.skip(i + 1));
        assert(b@.skip(i as int).drop_first() =~= b@.skip(i + 1));
        i = i + 1;
    }
    if i == a.len() {
        assert(a@.skip(i as int).len() == 0);
        true
    } else if i == b.len() {
        assert(b@.skip(i as int).len() == 0);
        false
    } else {
        assert(a@.skip(i as int)[0] == a@[i as int]);
        assert(b@.skip(i as int)[0] == b@[i as int]);
        a[i] < b[i]
    }
}

/// The ASCII digit for `d < 10`.
pub open spec fn digit_char(d: nat) -> char {
    if d == 0 {
        '0'
    } else if d == 1 {
        '1'
    } else if d == 2 {
        '2'
    } else if d == 3 {
        '3'
    } else if d == 4 {
        '4'
    } else if d == 5 {
        '5'
    } else if d == 6 {
        '6'
    } else if d == 7 {
        '7'
    } else if d == 8 {
        '8'
    } else {
        '9'
    }
}

/// Decimal rendering of `n` (as `Display` for unsigned integers).
pub open spec fn decimal(n: nat) -> Seq<char>
    decreases n,
{
    if n < 10 {
        seq![digit_char(n)]
    } else {
        decimal(n / 10).push(digit_char(n % 10))
    }
}

fn digit_of(d: u64) -> (c: char)
    requires
        d < 10,
    ensures
        c == digit_char(d as nat),
{
    if d == 0 {
        '0'
    } else if d == 1 {
        '1'
    } else if d == 2 {
        '2'
    } else if d == 3 {
        '3'
    } else if d == 4 {
        '4'
    } else if d == 5 {
        '5'
    } else if d == 6 {
        '6'
    } else if d == 7 {
        '7'
    } else if d == 8 {
        '8'
    } else {
        '9'
    }
}

/// Appends the decimal rendering of `n` to `out`.
pub fn push_decimal(out: &mut Vec<char>, n: u64)
    ensures
        final(out)@ == old(out)@ + decimal(n as nat),
    decreases n,
{
    if n < 10 {
        out.push(digit_of(n));
        assert(decimal(n as nat) =~= seq![digit_char(n as nat)]);
    } else {
        push_decimal(out, n / 10);
        out.push(digit_of(n % 10));
    }
}

// ---------------------------------------------------------------------------
// Unicode case and category queries answered by the standard library.
// ---------------------------------------------------------------------------

/// What `char::to_lowercase` yields for `c`.
pub uninterp spec fn spec_char_to_lowercase(c: char) -> Seq<char>;

/// What `str::to_lowercase` returns for `s`.
pub uninterp spec fn spec_str_to_lowercase(s: Seq<char>) -> Seq<char>;

/// Whether `c` has the Unicode `Uppercase` property (`char::is_uppercase`).
pub uninterp spec fn spec_char_is_uppercase(c: char) -> bool;

/// Whether `c` is in a Unicode numeric category (`char::is_numeric`).
pub uninterp spec fn spec_char_is_numeric(c: char) -> bool;

/// Calls `char::to_lowercase`; the standard library documents that the
/// mapping yields one or more characters.  Which ones is left to the name.
#[verifier::external_body]
pub(crate) fn char_to_lowercase(c: char) -> (v: Vec<char>)
    ensures
        v@ == spec_char_to_lowercase(c),
        v@.len() >= 1,
{
    c.to_lowercase().collect()
}

/// Calls `str::to_lowercase`; the result is only named.
#[verifier::external_body]
pub(crate) fn str_to_lowercase(s: &str) -> (r: String)
    ensures
        r@ == spec_str_to_lowercase(s@),
{
    s.to_lowercase()
}

/// Calls `char::is_uppercase`; the Unicode table is only named.
#[verifier::external_body]
pub(crate) fn char_is_uppercase(c: char) -> (b: bool)
    ensures
        b == spec_char_is_uppercase(c),
{
    c.is_uppercase()
}

/// Calls `char::is_numeric`; the Unicode table is only named.
#[verifier::external_body]
pub(crate) fn char_is_numeric(c: char) -> (b: bool)
    ensures
        b == spec_char_is_numeric(c),
{
    c.is_numeric()
}

} // verus!
