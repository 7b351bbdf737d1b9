//! Character-level text operations shared by every source: the specifications
//! of the string functions the scrapers lean on, with verified implementations
//! over `Vec<char>`.
use vstd::prelude::*;

verus! {

// ---------------------------------------------------------------------------
// Conversions between `&str`, `String` and `Vec<char>`
// ---------------------------------------------------------------------------

/// The characters of `s`, in order.
pub fn chars_of(s: &str) -> (v: Vec<char>)
    ensures
        v@ == s@,
{
    let mut v: Vec<char> = Vec::new();
    for c in it: s.chars()
        invariant
            v@ == it.seq().take(it.index() as int),
            it.seq() == s@,
    {
        v.push(c);
    }
    v
}

/// Collects characters into a `String` through std's `FromIterator<&char>`
/// for `String`; the contract claims the string holds exactly those
/// characters in order, as std documents.
#[verifier::external_body]
pub(crate) fn string_of(v: &Vec<char>) -> (s: String)
    ensures
        s@ == v@,
{
    v.iter().collect()
}

/// Copies a `&str` into a `String`.
pub fn owned(s: &str) -> (r: String)
    ensures
        r@ == s@,
{
    s.to_owned()
}

/// Appends `extra` to the end of `v`.
pub fn push_all(v: &mut Vec<char>, extra: &Vec<char>)
    ensures
        final(v)@ == old(v)@ + extra@,
{
    let mut i: usize = 0;
    while i < extra.len()
        invariant
            i <= extra@.len(),
            v@ == old(v)@ + extra@.take(i as int),
        decreases extra@.len() - i,
    {
        v.push(extra[i]);
        i += 1;
        assert(extra@.take(i as int) == extra@.take(i - 1).push(extra@[i - 1]));
    }
    assert(extra@.take(extra@.len() as int) == extra@);
}

/// Appends the characters of `s` to the end of `v`.
pub fn push_str(v: &mut Vec<char>, s: &str)
    ensures
        final(v)@ == old(v)@ + s@,
{
    let cs = chars_of(s);
    push_all(v, &cs);
}

/// Whether two character sequences are equal.
pub fn chars_eq(a: &Vec<char>, b: &Vec<char>) -> (r: bool)
    ensures
        r == (a@ == b@),
{
    if a.len() != b.len() {
        return false;
    }
    let mut i: usize = 0;
    while i < a.len()
        invariant
            a@.len() == b@.len(),
            i <= a@.len(),
            forall|j: int| 0 <= j < i ==> a@[j] == b@[j],
        decreases a@.len() - i,
    {
        if a[i] != b[i] {
            return false;
        }
        i += 1;
    }
    assert(a@ =~= b@);
    true
}

/// Whether two strings are equal.
pub fn str_eq(a: &str, b: &str) -> (r: bool)
    ensures
        r == (a@ == b@),
{
    let x = chars_of(a);
    let y = chars_of(b);
    chars_eq(&x, &y)
}

/// The characters of `v` from `start` (inclusive) to `end` (exclusive).
pub fn slice_chars(v: &Vec<char>, start: usize, end: usize) -> (r: Vec<char>)
    requires
        start <= end <= v@.len(),
    ensures
        r@ == v@.subrange(start as int, end as int),
{
    let mut r: Vec<char> = Vec::new();
    let mut i = start;
    while i < end
        invariant
            start <= i <= end <= v@.len(),
            r@ == v@.subrange(start as int, i as int),
        decreases end - i,
    {
        r.push(v[i]);
        i += 1;
        assert(v@.subrange(start as int, i as int) == v@.subrange(start as int, i - 1).push(
            v@[i - 1],
        ));
    }
    r
}

// ---------------------------------------------------------------------------
// Whitespace and trimming
// ---------------------------------------------------------------------------

/// Unicode `White_Space`, the property std's `char::is_whitespace` tests.
pub open spec fn is_ws(c: char) -> bool {
    ||| ('\t' <= c && c <= '\r')
    ||| c == ' '
    ||| c == '\u{85}'
    ||| c == '\u{a0}'
    ||| c == '\u{1680}'
    ||| ('\u{2000}' <= c && c <= '\u{200a}')
    ||| c == '\u{2028}'
    ||| c == '\u{2029}'
    ||| c == '\u{202f}'
    ||| c == '\u{205f}'
    ||| c == '\u{3000}'
}

/// Whether `c` is Unicode whitespace.
pub fn is_whitespace(c: char) -> (r: bool)
    ensures
        r == is_ws(c),
{
    ('\t' <= c && c <= '\r') || c == ' ' || c == '\u{85}' || c == '\u{a0}' || c == '\u{1680}'
        || ('\u{2000}' <= c && c <= '\u{200a}') || c == '\u{2028}' || c == '\u{2029}' || c
        == '\u{202f}' || c == '\u{205f}' || c == '\u{3000}'
}

/// `s` without its leading whitespace.
pub open spec fn trim_start(s: Seq<char>) -> Seq<char>
    decreases s.len(),
{
    if s.len() > 0 && is_ws(s[0]) {
        trim_start(s.drop_first())
    } else {
        s
    }
}

/// `s` without its trailing whitespace.
pub open spec fn trim_end(s: Seq<char>) -> Seq<char>
    decreases s.len(),
{
    if s.len() > 0 && is_ws(s.last()) {
        trim_end(s.drop_last())
    } else {
        s
    }
}

/// `s` without leading or trailing whitespace (std's `str::trim`).
pub open spec fn trim(s: Seq<char>) -> Seq<char> {
    trim_end(trim_start(s))
}

proof fn lemma_trim_start_skip(s: Seq<char>, i: int)
    requires
        0 <= i <= s.len(),
        forall|j: int| 0 <= j < i ==> is_ws(#[trigger] s[j]),
    ensures
        trim_start(s) == trim_start(s.skip(i)),
    decreases i,
{
    if i > 0 {
        assert(s.drop_first().skip(i - 1) =~= s.skip(i));
        lemma_trim_start_skip(s.drop_first(), i - 1);
    } else {
        assert(s.skip(0) =~= s);
    }
}

proof fn lemma_trim_end_take(s: Seq<char>, i: int)
    requires
        0 <= i <= s.len(),
        forall|j: int| i <= j < s.len() ==> is_ws(#[trigger] s[j]),
    ensures
        trim_end(s) == trim_end(s.take(i)),
    decreases s.len() - i,
{
    if i < s.len() {
        assert(s.drop_last().take(i) =~= s.take(i));
        lemma_trim_end_take(s.drop_last(), i);
    } else {
        assert(s.take(i) =~= s);
    }
}

/// Trimming drops exactly the whitespace padding around a text that begins
/// and ends with something else.
pub proof fn lemma_trim_padded(w1: Seq<char>, x: Seq<char>, w2: Seq<char>)
    requires
        x.len() > 0,
        !is_ws(x[0]),
        !is_ws(x.last()),
        forall|j: int| 0 <= j < w1.len() ==> is_ws(#[trigger] w1[j]),
        forall|j: int| 0 <= j < w2.len() ==> is_ws(#[trigger] w2[j]),
    ensures
        trim(w1 + x + w2) == x,
{
    let s = w1 + x + w2;
    assert forall|j: int| 0 <= j < w1.len() implies is_ws(#[trigger] s[j]) by {
        assert(s[j] == w1[j]);
    }
    lemma_trim_start_skip(s, w1.len() as int);
    let t = s.skip(w1.len() as int);
    assert(t =~= x + w2);
    assert(trim_start(t) == t);
    assert forall|j: int| x.len() <= j < t.len() implies is_ws(#[trigger] t[j]) by {
        assert(t[j] == w2[j - x.len()]);
    }
    lemma_trim_end_take(t, x.len() as int);
    assert(t.take(x.len() as int) =~= x);
    assert(trim_end(x) == x);
}

/// The index of the first non-whitespace character of `v` at or after `from`,
/// or the length of `v` if there is none.
fn skip_ws(v: &Vec<char>, from: usize) -> (i: usize)
    requires
        from <= v@.len(),
    ensures
        from <= i <= v@.len(),
        forall|j: int| from <= j < i ==> is_ws(#[trigger] v@[j]),
        i < v@.len() ==> !is_ws(v@[i as int]),
{
    let mut i = from;
    while i < v.len() && is_whitespace(v[i])
        invariant
            from <= i <= v@.len(),
            forall|j: int| from <= j < i ==> is_ws(#[trigger] v@[j]),
        decreases v@.len() - i,
    {
        i += 1;
    }
    i
}

/// Trims whitespace from both ends of a character sequence.
pub fn trim_chars(v: &Vec<char>) -> (r: Vec<char>)
    ensures
        r@ == trim(v@),
{
    let start = skip_ws(v, 0);
    let mut end = v.len();
    while end > start && is_whitespace(v[end - 1])
        invariant
            start <= end <= v@.len(),
            forall|j: int| end <= j < v@.len() ==> is_ws(#[trigger] v@[j]),
        decreases end,
    {
        end -= 1;
    }
    proof {
        lemma_trim_start_skip(v@, start as int);
        let t = v@.skip(start as int);
        if start < v@.len() {
            assert(t[0] == v@[start as int]);
        }
        assert(trim_start(t) == t);
        assert forall|j: int| end - start <= j < t.len() implies is_ws(#[trigger] t[j]) by {
            assert(t[j] == v@[j + start]);
        }
        lemma_trim_end_take(t, end - start);
        let u = t.take(end - start);
        if end > start {
            assert(u.last() == v@[end - 1]);
        }
        assert(trim_end(u) == u);
        assert(u =~= v@.subrange(start as int, end as int));
    }
    slice_chars(v, start, end)
}

/// Trims whitespace from both ends of a string.
pub fn trim_str(s: &str) -> (r: String)
    ensures
        r@ == trim(s@),
{
    let v = chars_of(s);
    let t = trim_chars(&v);
    string_of(&t)
}


/// The leading run of non-whitespace characters of `s`.
pub open spec fn take_word(s: Seq<char>) -> Seq<char>
    decreases s.len(),
{
    if s.len() == 0 || is_ws(s[0]) {
        Seq::empty()
    } else {
        seq![s[0]] + take_word(s.drop_first())
    }
}

/// The first whitespace-separated word of `s`, empty when it has none (std's
/// `split_whitespace().next()`).
pub open spec fn first_word(s: Seq<char>) -> Seq<char> {
    take_word(trim_start(s))
}

proof fn lemma_take_word_prefix(s: Seq<char>, i: int)
    requires
        0 <= i <= s.len(),
        forall|j: int| 0 <= j < i ==> !is_ws(#[trigger] s[j]),
        i == s.len() || is_ws(s[i]),
    ensures
        take_word(s) == s.take(i),
    decreases i,
{
    if i > 0 {
        lemma_take_word_prefix(s.drop_first(), i - 1);
        assert(seq![s[0]] + s.drop_first().take(i - 1) =~= s.take(i));
    } else {
        assert(s.take(0) =~= Seq::<char>::empty());
    }
}

/// The first whitespace-separated word of `v`, empty when it has none.
pub fn first_word_chars(v: &Vec<char>) -> (r: Vec<char>)
    ensures
        r@ == first_word(v@),
{
    let start = skip_ws(v, 0);
    let mut end = start;
    while end < v.len() && !is_whitespace(v[end])
        invariant
            start <= end <= v@.len(),
            forall|j: int| start <= j < end ==> !is_ws(#[trigger] v@[j]),
        decreases v@.len() - end,
    {
        end += 1;
    }
    proof {
        lemma_trim_start_skip(v@, start as int);
        let t = v@.skip(start as int);
        if start < v@.len() {
            assert(t[0] == v@[start as int]);
        }
        assert(trim_start(t) == t);
        assert forall|j: int| 0 <= j < end - start implies !is_ws(#[trigger] t[j]) by {
            assert(t[j] == v@[j + start]);
        }
        if end < v@.len() {
            assert(t[end - start] == v@[end as int]);
        }
        lemma_take_word_prefix(t, end - start);
        assert(t.take(end - start) =~= v@.subrange(start as int, end as int));
    }
    slice_chars(v, start, end)
}

/// The texts of a list of strings.
pub open spec fn strings_view(v: Seq<String>) -> Seq<Seq<char>> {
    v.map_values(|s: String| s@)
}

/// `trim_start` drops a leading run of whitespace.
pub proof fn lemma_trim_start_split(s: Seq<char>) -> (a: int)
    ensures
        0 <= a <= s.len(),
        trim_start(s) == s.skip(a),
        forall|k: int| 0 <= k < a ==> is_ws(#[trigger] s[k]),
        a < s.len() ==> !is_ws(s[a]),
    decreases s.len(),
{
    if s.len() > 0 && is_ws(s[0]) {
        let b = lemma_trim_start_split(s.drop_first());
        assert(s.drop_first().skip(b) =~= s.skip(b + 1));
        assert forall|k: int| 0 <= k < b + 1 implies is_ws(#[trigger] s[k]) by {
            if k > 0 {
                assert(s[k] == s.drop_first()[k - 1]);
            }
        }
        if b + 1 < s.len() {
            assert(s[b + 1] == s.drop_first()[b]);
        }
        b + 1
    } else {
        assert(s.skip(0) =~= s);
        0
    }
}

/// `trim_end` drops a trailing run of whitespace.
pub proof fn lemma_trim_end_split(s: Seq<char>) -> (b: int)
    ensures
        0 <= b <= s.len(),
        trim_end(s) == s.take(b),
        forall|k: int| b <= k < s.len() ==> is_ws(#[trigger] s[k]),
        b > 0 ==> !is_ws(s[b - 1]),
    decreases s.len(),
{
    if s.len() > 0 && is_ws(s.last()) {
        let b = lemma_trim_end_split(s.drop_last());
        assert(s.drop_last().take(b) =~= s.take(b));
        assert forall|k: int| b <= k < s.len() implies is_ws(#[trigger] s[k]) by {
            if k < s.len() - 1 {
                assert(s[k] == s.drop_last()[k]);
            }
        }
        if b > 0 {
            assert(s[b - 1] == s.drop_last()[b - 1]);
        }
        b
    } else {
        assert(s.take(s.len() as int) =~= s);
        s.len() as int
    }
}

/// A string is its leading whitespace, its trimmed form, then its trailing
/// whitespace.
pub proof fn lemma_trim_split(s: Seq<char>) -> (r: (int, int))
    ensures
        0 <= r.0 <= r.1 <= s.len(),
        trim(s) == s.subrange(r.0, r.1),
        forall|k: int| 0 <= k < r.0 ==> is_ws(#[trigger] s[k]),
        forall|k: int| r.1 <= k < s.len() ==> is_ws(#[trigger] s[k]),
        r.0 < r.1 ==> !is_ws(s[r.0]) && !is_ws(s[r.1 - 1]),
{
    let a = lemma_trim_start_split(s);
    let t = s.skip(a);
    let b = lemma_trim_end_split(t);
    assert(t.take(b) =~= s.subrange(a, a + b));
    assert forall|k: int| a + b <= k < s.len() implies is_ws(#[trigger] s[k]) by {
        assert(s[k] == t[k - a]);
    }
    if b > 0 {
        assert(s[a] == t[0]);
        assert(s[a + b - 1] == t[b - 1]);
    }
    (a, a + b)
}

/// Trimming twice is trimming once.
pub proof fn lemma_trim_idempotent(s: Seq<char>)
    ensures
        trim(trim(s)) == trim(s),
{
    let r = lemma_trim_split(s);
    let m = trim(s);
    let q = lemma_trim_split(m);
    if m.len() > 0 {
        assert(m[0] == s[r.0]);
        assert(m[m.len() - 1] == s[r.1 - 1]);
        if q.0 > 0 {
            assert(is_ws(m[0]));
        }
        if q.1 < m.len() {
            assert(is_ws(m[m.len() - 1]));
        }
        assert(m.subrange(q.0, q.1) =~= m);
    } else {
        assert(m.subrange(q.0, q.1) =~= m);
    }
}

/// Every word is non-empty and free of whitespace.
pub proof fn lemma_words_shape(s: Seq<char>)
    ensures
        forall|w: int| 0 <= w < words(s).len() ==> (#[trigger] words(s)[w]).len() > 0,
        forall|w: int, k: int|
            0 <= w < words(s).len() && 0 <= k < words(s)[w].len() ==> !is_ws(#[trigger] words(s)[w][k]),
    decreases s.len(),
{
    if s.len() > 0 {
        lemma_words_shape(s.drop_last());
        let ws = words(s.drop_last());
        let c = s.last();
        if !is_ws(c) && s.len() >= 2 && !is_ws(s[s.len() - 2]) {
            lemma_words_nonempty(s.drop_last());
            let u = ws.update(ws.len() - 1, ws.last().push(c));
            assert forall|w: int, k: int|
                0 <= w < u.len() && 0 <= k < u[w].len() implies !is_ws(#[trigger] u[w][k]) by {
                if w < ws.len() - 1 {
                    assert(u[w] == ws[w]);
                } else if k < ws.last().len() {
                    assert(u[w][k] == ws[w][k]);
                }
            }
            assert forall|w: int| 0 <= w < u.len() implies (#[trigger] u[w]).len() > 0 by {
                if w < ws.len() - 1 {
                    assert(u[w] == ws[w]);
                }
            }
        } else if !is_ws(c) {
            let u = ws.push(seq![c]);
            assert forall|w: int, k: int|
                0 <= w < u.len() && 0 <= k < u[w].len() implies !is_ws(#[trigger] u[w][k]) by {
                if w < ws.len() {
                    assert(u[w] == ws[w]);
                }
            }
            assert forall|w: int| 0 <= w < u.len() implies (#[trigger] u[w]).len() > 0 by {
                if w < ws.len() {
                    assert(u[w] == ws[w]);
                }
            }
        }
    }
}

/// A word on its own is one word.
proof fn lemma_words_of_word(w: Seq<char>)
    requires
        w.len() > 0,
        forall|k: int| 0 <= k < w.len() ==> !is_ws(#[trigger] w[k]),
    ensures
        words(w) == seq![w],
    decreases w.len(),
{
    assert(!is_ws(w[w.len() - 1]));
    if w.len() == 1 {
        assert(w.drop_last() =~= Seq::<char>::empty());
        assert(words(w.drop_last()) == Seq::<Seq<char>>::empty());
        assert(seq![w.last()] =~= w);
        assert(words(w) == words(w.drop_last()).push(seq![w.last()]));
        assert(Seq::<Seq<char>>::empty().push(w) =~= seq![w]);
    } else {
        lemma_words_of_word(w.drop_last());
        assert(w.drop_last().push(w.last()) =~= w);
        assert(!is_ws(w[w.len() - 2]));
        let ws = words(w.drop_last());
        assert(words(w) == ws.update(ws.len() - 1, ws.last().push(w.last())));
        assert(seq![w.drop_last()].update(0, w.drop_last().push(w.last())) =~= seq![w]);
    }
}

/// A word after a space adds itself to the words before.
proof fn lemma_words_space_word(x: Seq<char>, w: Seq<char>)
    requires
        w.len() > 0,
        forall|k: int| 0 <= k < w.len() ==> !is_ws(#[trigger] w[k]),
    ensures
        words(x + seq![' '] + w) == words(x).push(w),
    decreases w.len(),
{
    let s = x + seq![' '] + w;
    assert(!is_ws(w[w.len() - 1]));
    assert(s.last() == w.last());
    if w.len() == 1 {
        assert(s.drop_last() =~= x.push(' '));
        assert(x.push(' ').drop_last() =~= x);
        assert(x.push(' ').last() == ' ');
        assert(words(x.push(' ')) == words(x));
        assert(s[s.len() - 2] == ' ');
        assert(seq![w.last()] =~= w);
        assert(words(s) == words(s.drop_last()).push(seq![s.last()]));
    } else {
        lemma_words_space_word(x, w.drop_last());
        assert(s.drop_last() =~= x + seq![' '] + w.drop_last());
        assert(s[s.len() - 2] == w[w.len() - 2]);
        let ws = words(x).push(w.drop_last());
        assert(w.drop_last().push(w.last()) =~= w);
        assert(words(s) == ws.update(ws.len() - 1, ws.last().push(s.last())));
        assert(ws.update(ws.len() - 1, ws.last().push(s.last())) =~= words(x).push(w));
    }
}

/// Single-spaced words read back as the same words.
proof fn lemma_words_join(ws: Seq<Seq<char>>)
    requires
        forall|w: int| 0 <= w < ws.len() ==> (#[trigger] ws[w]).len() > 0,
        forall|w: int, k: int| 0 <= w < ws.len() && 0 <= k < ws[w].len() ==> !is_ws(#[trigger] ws[w][k]),
    ensures
        words(join(ws, seq![' '])) == ws,
    decreases ws.len(),
{
    if ws.len() == 0 {
    } else if ws.len() == 1 {
        lemma_words_of_word(ws[0]);
        assert(ws =~= seq![ws[0]]);
    } else {
        let d = ws.drop_last();
        assert forall|w: int, k: int| 0 <= w < d.len() && 0 <= k < d[w].len() implies !is_ws(
            #[trigger] d[w][k],
        ) by {
            assert(d[w] == ws[w]);
        }
        assert forall|w: int| 0 <= w < d.len() implies (#[trigger] d[w]).len() > 0 by {
            assert(d[w] == ws[w]);
        }
        lemma_words_join(d);
        assert forall|k: int| 0 <= k < ws.last().len() implies !is_ws(#[trigger] ws.last()[k]) by {
            assert(ws.last()[k] == ws[ws.len() - 1][k]);
        }
        lemma_words_space_word(join(d, seq![' ']), ws.last());
        assert(d.push(ws.last()) =~= ws);
    }
}

/// Collapsing whitespace twice is collapsing it once.
pub proof fn lemma_collapse_ws_idempotent(s: Seq<char>)
    ensures
        collapse_ws(collapse_ws(s)) == collapse_ws(s),
{
    lemma_words_shape(s);
    lemma_words_join(words(s));
}

/// Collapsing leaves nothing exactly when everything is whitespace.
pub proof fn lemma_collapse_ws_empty(s: Seq<char>)
    ensures
        collapse_ws(s).len() == 0 <==> forall|k: int| 0 <= k < s.len() ==> is_ws(#[trigger] s[k]),
    decreases s.len(),
{
    if s.len() > 0 {
        lemma_collapse_ws_empty(s.drop_last());
        lemma_words_shape(s);
        let ws = words(s);
        if !is_ws(s.last()) {
            lemma_words_nonempty(s);
            lemma_join_len(ws, seq![' ']);
            assert(ws[ws.len() - 1].len() > 0);
        } else {
            assert(ws == words(s.drop_last()));
            if forall|k: int| 0 <= k < s.drop_last().len() ==> is_ws(#[trigger] s.drop_last()[k]) {
                assert forall|k: int| 0 <= k < s.len() implies is_ws(#[trigger] s[k]) by {
                    if k < s.len() - 1 {
                        assert(s[k] == s.drop_last()[k]);
                    }
                }
            } else {
                let k = choose|k: int| 0 <= k < s.drop_last().len() && !is_ws(#[trigger] s.drop_last()[k]);
                assert(s[k] == s.drop_last()[k]);
            }
        }
    }
}

/// Joined pieces are at least as long as the last piece.
proof fn lemma_join_len(ws: Seq<Seq<char>>, sep: Seq<char>)
    requires
        ws.len() > 0,
    ensures
        join(ws, sep).len() >= ws.last().len(),
{
}

/// The view of an optional character vector.
pub open spec fn opt_chars(o: Option<Vec<char>>) -> Option<Seq<char>> {
    match o {
        Some(v) => Some(v@),
        None => None,
    }
}

/// The view of an optional string.
pub open spec fn opt_string(o: Option<String>) -> Option<Seq<char>> {
    match o {
        Some(v) => Some(v@),
        None => None,
    }
}

/// The view of an optional string slice.
pub open spec fn opt_str(o: Option<&str>) -> Option<Seq<char>> {
    match o {
        Some(v) => Some(v@),
        None => None,
    }
}

/// An optional `u64` as an optional natural number.
pub open spec fn opt_u64(o: Option<u64>) -> Option<nat> {
    match o {
        Some(v) => Some(v as nat),
        None => None,
    }
}

/// An optional `u32` as an optional natural number.
pub open spec fn opt_u32(o: Option<u32>) -> Option<nat> {
    match o {
        Some(v) => Some(v as nat),
        None => None,
    }
}

// ---------------------------------------------------------------------------
// Searching
// ---------------------------------------------------------------------------

/// `p` occurs in `s` starting at index `i`.
pub open spec fn matches_at(s: Seq<char>, p: Seq<char>, i: int) -> bool {
    0 <= i && i + p.len() <= s.len() && s.subrange(i, i + p.len()) == p
}

/// `i` is the first index at or after `from` where `p` occurs in `s`.
pub open spec fn is_first_match_from(s: Seq<char>, p: Seq<char>, from: int, i: int) -> bool {
    &&& from <= i
    &&& matches_at(s, p, i)
    &&& forall|j: int| from <= j < i ==> !#[trigger] matches_at(s, p, j)
}

/// The first index at or after `from` where `p` occurs in `s`.
pub open spec fn find_from(s: Seq<char>, p: Seq<char>, from: int) -> Option<int> {
    if exists|i: int| from <= i && #[trigger] matches_at(s, p, i) {
        Some(choose|i: int| is_first_match_from(s, p, from, i))
    } else {
        None
    }
}

/// The first index where `p` occurs in `s` (std's `str::find`).
pub open spec fn find(s: Seq<char>, p: Seq<char>) -> Option<int> {
    find_from(s, p, 0)
}

/// `i` is the last index where `p` occurs in `s`.
pub open spec fn is_last_match(s: Seq<char>, p: Seq<char>, i: int) -> bool {
    &&& matches_at(s, p, i)
    &&& forall|j: int| i < j ==> !#[trigger] matches_at(s, p, j)
}

/// The last index where `p` occurs in `s` (std's `str::rfind`).
pub open spec fn rfind(s: Seq<char>, p: Seq<char>) -> Option<int> {
    if exists|i: int| #[trigger] matches_at(s, p, i) {
        Some(choose|i: int| is_last_match(s, p, i))
    } else {
        None
    }
}

pub proof fn lemma_find_from_is(s: Seq<char>, p: Seq<char>, from: int, i: int)
    requires
        is_first_match_from(s, p, from, i),
    ensures
        find_from(s, p, from) == Some(i),
{
    assert(from <= i && matches_at(s, p, i));
    let m = choose|k: int| is_first_match_from(s, p, from, k);
    assert(is_first_match_from(s, p, from, m));
    if m < i {
        assert(!matches_at(s, p, m));
    }
    if i < m {
        assert(!matches_at(s, p, i));
    }
}

pub proof fn lemma_find_from_none(s: Seq<char>, p: Seq<char>, from: int)
    requires
        forall|j: int| from <= j ==> !#[trigger] matches_at(s, p, j),
    ensures
        find_from(s, p, from) is None,
{
}

pub proof fn lemma_rfind_is(s: Seq<char>, p: Seq<char>, i: int)
    requires
        is_last_match(s, p, i),
    ensures
        rfind(s, p) == Some(i),
{
    assert(matches_at(s, p, i));
    let m = choose|k: int| is_last_match(s, p, k);
    assert(is_last_match(s, p, m));
    if m < i {
        assert(!matches_at(s, p, i));
    }
    if i < m {
        assert(!matches_at(s, p, m));
    }
}

/// Whether `p` occurs in `s` at index `i`.
pub fn matches_at_exec(s: &Vec<char>, p: &Vec<char>, i: usize) -> (r: bool)
    ensures
        r == matches_at(s@, p@, i as int),
{
    if i > s.len() || p.len() > s.len() - i {
        return false;
    }
    let mut k: usize = 0;
    while k < p.len()
        invariant
            i + p@.len() <= s@.len(),
            s@.len() == s.len(),
            k <= p@.len(),
            forall|j: int| 0 <= j < k ==> s@[i + j] == p@[j],
        decreases p@.len() - k,
    {
        if s[i + k] != p[k] {
            assert(s@.subrange(i as int, i + p@.len())[k as int] != p@[k as int]);
            return false;
        }
        k += 1;
    }
    assert(s@.subrange(i as int, i + p@.len()) =~= p@);
    true
}

/// The first index at or after `from` where `p` occurs in `s`.
pub fn find_from_exec(s: &Vec<char>, p: &Vec<char>, from: usize) -> (r: Option<usize>)
    ensures
        r matches Some(i) ==> is_first_match_from(s@, p@, from as int, i as int) && find_from(
            s@,
            p@,
            from as int,
        ) == Some(i as int),
        r is None ==> (forall|j: int| from <= j ==> !#[trigger] matches_at(s@, p@, j)) && find_from(
            s@,
            p@,
            from as int,
        ) is None,
{
    let mut i = from;
    loop
        invariant
            from <= i,
            forall|j: int| from <= j < i ==> !#[trigger] matches_at(s@, p@, j),
        decreases s@.len() + 1 - i,
    {
        if matches_at_exec(s, p, i) {
            proof {
                lemma_find_from_is(s@, p@, from as int, i as int);
            }
            return Some(i);
        }
        if i >= s.len() {
            proof {
                assert forall|j: int| from <= j implies !#[trigger] matches_at(s@, p@, j) by {
                    if j > i {
                        assert(j + p@.len() > s@.len());
                    }
                }
                lemma_find_from_none(s@, p@, from as int);
            }
            return None;
        }
        i += 1;
    }
}

/// The first index where `p` occurs in `s`.
pub fn find_exec(s: &Vec<char>, p: &Vec<char>) -> (r: Option<usize>)
    ensures
        r matches Some(i) ==> find(s@, p@) == Some(i as int) && is_first_match_from(s@, p@, 0, i as int),
        r is None ==> find(s@, p@) is None,
{
    find_from_exec(s, p, 0)
}

/// The last index where `p` occurs in `s`.
pub fn rfind_exec(s: &Vec<char>, p: &Vec<char>) -> (r: Option<usize>)
    ensures
        r matches Some(i) ==> rfind(s@, p@) == Some(i as int) && is_last_match(s@, p@, i as int),
        r is None ==> rfind(s@, p@) is None && forall|j: int| !#[trigger] matches_at(s@, p@, j),
{
    let mut i = s.len();
    loop
        invariant
            i <= s@.len(),
            forall|j: int| i < j ==> !#[trigger] matches_at(s@, p@, j),
        decreases i,
    {
        if matches_at_exec(s, p, i) {
            proof {
                lemma_rfind_is(s@, p@, i as int);
            }
            return Some(i);
        }
        if i == 0 {
            proof {
                assert forall|j: int| !#[trigger] matches_at(s@, p@, j) by {
                    if j < 0 {
                    }
                }
            }
            return None;
        }
        i -= 1;
    }
}

/// The first index at or after `from` holding the character `c`.
pub fn find_char_from(s: &Vec<char>, c: char, from: usize) -> (r: Option<usize>)
    ensures
        r matches Some(i) ==> from <= i < s@.len() && s@[i as int] == c && forall|j: int|
            from <= j < i ==> s@[j] != c,
        r is None ==> forall|j: int| from <= j < s@.len() ==> s@[j] != c,
{
    let mut i = from;
    while i < s.len()
        invariant
            from <= i,
            forall|j: int| from <= j < i && j < s@.len() ==> s@[j] != c,
        decreases s@.len() - i,
    {
        if s[i] == c {
            return Some(i);
        }
        i += 1;
    }
    None
}

pub proof fn lemma_match_single(s: Seq<char>, c: char, i: int)
    ensures
        matches_at(s, seq![c], i) <==> (0 <= i < s.len() && s[i] == c),
{
    if 0 <= i < s.len() {
        if s[i] == c {
            assert(s.subrange(i, i + 1) =~= seq![c]);
        } else {
            assert(s.subrange(i, i + 1)[0] != seq![c][0]);
        }
    }
}

/// The first index at or after `from` holding `c`, stated as a search for the
/// one-character pattern.
pub fn find_char_exec(s: &Vec<char>, c: char, from: usize) -> (r: Option<usize>)
    ensures
        r matches Some(i) ==> find_from(s@, seq![c], from as int) == Some(i as int) && from <= i
            < s@.len() && s@[i as int] == c,
        r is None ==> find_from(s@, seq![c], from as int) is None,
{
    let r = find_char_from(s, c, from);
    proof {
        match r {
            Some(i) => {
                assert forall|j: int| from <= j < i implies !#[trigger] matches_at(
                    s@,
                    seq![c],
                    j,
                ) by {
                    lemma_match_single(s@, c, j);
                }
                lemma_match_single(s@, c, i as int);
                lemma_find_from_is(s@, seq![c], from as int, i as int);
            },
            None => {
                assert forall|j: int| from <= j implies !#[trigger] matches_at(s@, seq![c], j) by {
                    lemma_match_single(s@, c, j);
                }
            },
        }
    }
    r
}

/// The piece of `s` after the first occurrence of `p` and before the next one
/// (std's `s.split(p).nth(1)`).
pub open spec fn split_second(s: Seq<char>, p: Seq<char>) -> Option<Seq<char>> {
    match find(s, p) {
        None => None,
        Some(i) => {
            let r = i + p.len();
            match find_from(s, p, r) {
                Some(j) => Some(s.subrange(r, j)),
                None => Some(s.subrange(r, s.len() as int)),
            }
        },
    }
}

/// `s.split(p).nth(1)` for a non-empty pattern.
pub fn split_second_exec(s: &Vec<char>, p: &Vec<char>) -> (r: Option<Vec<char>>)
    requires
        p@.len() > 0,
    ensures
        opt_chars(r) == split_second(s@, p@),
{
    match find_exec(s, p) {
        None => None,
        Some(i) => {
            assert(matches_at(s@, p@, i as int));
            let _n = s.len();
            let r = i + p.len();
            match find_from_exec(s, p, r) {
                Some(j) => {
                    assert(r <= j);
                    assert(j + p@.len() <= s@.len());
                    Some(slice_chars(s, r, j))
                },
                None => Some(slice_chars(s, r, s.len())),
            }
        },
    }
}

/// The prefix of `s` before the first `c` (std's `take_while(|x| x != c)`).
pub open spec fn take_until(s: Seq<char>, c: char) -> Seq<char>
    decreases s.len(),
{
    if s.len() == 0 || s[0] == c {
        Seq::empty()
    } else {
        seq![s[0]] + take_until(s.drop_first(), c)
    }
}

pub proof fn lemma_take_until_prefix(s: Seq<char>, c: char, i: int)
    requires
        0 <= i <= s.len(),
        forall|j: int| 0 <= j < i ==> s[j] != c,
        i == s.len() || s[i] == c,
    ensures
        take_until(s, c) == s.take(i),
    decreases i,
{
    if i > 0 {
        lemma_take_until_prefix(s.drop_first(), c, i - 1);
        assert(seq![s[0]] + s.drop_first().take(i - 1) =~= s.take(i));
    } else {
        assert(s.take(0) =~= Seq::<char>::empty());
    }
}

/// The prefix of `s` before the first `c`.
pub fn take_until_exec(s: &Vec<char>, c: char) -> (r: Vec<char>)
    ensures
        r@ == take_until(s@, c),
{
    let end = match find_char_from(s, c, 0) {
        Some(i) => i,
        None => s.len(),
    };
    proof {
        lemma_take_until_prefix(s@, c, end as int);
    }
    slice_chars(s, 0, end)
}

/// `s` split at the first `c`, without the `c` (std's `split_once`).
pub open spec fn split_once(s: Seq<char>, c: char) -> Option<(Seq<char>, Seq<char>)> {
    match find(s, seq![c]) {
        None => None,
        Some(i) => Some((s.take(i), s.skip(i + 1))),
    }
}

/// `s` split at the first `c`.
pub fn split_once_exec(s: &Vec<char>, c: char) -> (r: Option<(Vec<char>, Vec<char>)>)
    ensures
        r matches Some(p) ==> split_once(s@, c) == Some((p.0@, p.1@)),
        r is None ==> split_once(s@, c) is None,
{
    match find_char_exec(s, c, 0) {
        None => None,
        Some(i) => {
            let n = s.len();
            assert(i < n);
            Some((slice_chars(s, 0, i), slice_chars(s, i + 1, s.len())))
        },
    }
}

/// `p` is a prefix of `s`.
pub open spec fn starts_with(s: Seq<char>, p: Seq<char>) -> bool {
    p.len() <= s.len() && s.take(p.len() as int) == p
}

/// Whether `s` begins with `p`.
pub fn starts_with_exec(s: &Vec<char>, p: &Vec<char>) -> (r: bool)
    ensures
        r == starts_with(s@, p@),
{
    let r = matches_at_exec(s, p, 0);
    assert(p@.len() <= s@.len() ==> s@.subrange(0, p@.len() as int) =~= s@.take(p@.len() as int));
    r
}

/// Whether `p` occurs anywhere in `s`.
pub open spec fn contains(s: Seq<char>, p: Seq<char>) -> bool {
    exists|i: int| #[trigger] matches_at(s, p, i)
}

/// Whether `p` occurs anywhere in `s`.
pub fn contains_exec(s: &Vec<char>, p: &Vec<char>) -> (r: bool)
    ensures
        r == contains(s@, p@),
{
    match find_from_exec(s, p, 0) {
        Some(i) => true,
        None => {
            assert forall|j: int| !#[trigger] matches_at(s@, p@, j) by {
                if j < 0 {
                }
            }
            false
        },
    }
}

// ---------------------------------------------------------------------------
// Numbers
// ---------------------------------------------------------------------------

pub open spec fn is_digit(c: char) -> bool {
    '0' <= c && c <= '9'
}

pub open spec fn digit_value(c: char) -> int {
    c as int - '0' as int
}

pub open spec fn all_digits(s: Seq<char>) -> bool {
    forall|i: int| 0 <= i < s.len() ==> is_digit(#[trigger] s[i])
}

/// The number a run of decimal digits spells.
pub open spec fn digits_value(s: Seq<char>) -> nat
    decreases s.len(),
{
    if s.len() == 0 {
        0
    } else {
        (digits_value(s.drop_last()) * 10 + digit_value(s.last())) as nat
    }
}

/// The unsigned integer `s` spells, if it is at most `max`: an optional `+`
/// followed by at least one decimal digit (std's `FromStr` for unsigned
/// integers).
pub open spec fn parse_uint(s: Seq<char>, max: nat) -> Option<nat> {
    let d = if s.len() > 0 && s[0] == '+' {
        s.drop_first()
    } else {
        s
    };
    if d.len() > 0 && all_digits(d) && digits_value(d) <= max {
        Some(digits_value(d))
    } else {
        None
    }
}

proof fn lemma_digits_value_grows(s: Seq<char>, k: int)
    requires
        0 <= k <= s.len(),
        all_digits(s),
    ensures
        digits_value(s.take(k)) <= digits_value(s),
    decreases s.len() - k,
{
    if k < s.len() {
        assert(s.drop_last().take(k) =~= s.take(k));
        assert(all_digits(s.drop_last())) by {
            assert forall|i: int| 0 <= i < s.drop_last().len() implies is_digit(
                #[trigger] s.drop_last()[i],
            ) by {
                assert(s.drop_last()[i] == s[i]);
            }
        }
        lemma_digits_value_grows(s.drop_last(), k);
        assert(is_digit(s[s.len() - 1]));
    } else {
        assert(s.take(k) =~= s);
    }
}

/// Parses an unsigned decimal integer no larger than `u64::MAX`.
pub fn parse_u64_chars(s: &Vec<char>) -> (r: Option<u64>)
    ensures
        opt_u64(r) == parse_uint(s@, u64::MAX as nat),
{
    let start: usize = if s.len() > 0 && s[0] == '+' {
        1
    } else {
        0
    };
    let ghost d = if s@.len() > 0 && s@[0] == '+' {
        s@.drop_first()
    } else {
        s@
    };
    assert(d =~= s@.skip(start as int));
    if start >= s.len() {
        return None;
    }
    let mut value: u64 = 0;
    let mut i = start;
    while i < s.len()
        invariant
            start <= i <= s@.len(),
            d =~= s@.skip(start as int),
            d == (if s@.len() > 0 && s@[0] == '+' {
                s@.drop_first()
            } else {
                s@
            }),
            all_digits(s@.subrange(start as int, i as int)),
            value as nat == digits_value(s@.subrange(start as int, i as int)),
        decreases s@.len() - i,
    {
        let c = s[i];
        let ghost pre = s@.subrange(start as int, i as int);
        let ghost next = s@.subrange(start as int, i + 1);
        assert(next.drop_last() =~= pre);
        assert(next.last() == c);
        if !('0' <= c && c <= '9') {
            assert(d[i - start] == c);
            assert(!is_digit(d[i - start]));
            assert(!all_digits(d));
            return None;
        }
        let dv = (c as u32 - '0' as u32) as u64;
        assert(dv == digit_value(c));
        let ghost cut = (i + 1 - start) as int;
        assert(d.take(cut) =~= next);
        assert(digits_value(next) == digits_value(pre) * 10 + digit_value(c));
        match value.checked_mul(10) {
            None => {
                proof {
                    if all_digits(d) {
                        lemma_digits_value_grows(d, cut);
                    }
                }
                return None;
            },
            Some(v10) => match v10.checked_add(dv) {
                None => {
                    proof {
                        if all_digits(d) {
                            lemma_digits_value_grows(d, cut);
                        }
                    }
                    return None;
                },
                Some(v) => {
                    value = v;
                },
            },
        }
        assert(all_digits(next)) by {
            assert forall|j: int| 0 <= j < next.len() implies is_digit(#[trigger] next[j]) by {
                if j < next.len() - 1 {
                    assert(next[j] == pre[j]);
                }
            }
        }
        i += 1;
    }
    assert(s@.subrange(start as int, s@.len() as int) =~= d);
    Some(value)
}

/// Parses an unsigned decimal integer no larger than `u32::MAX`.
pub fn parse_u32_chars(s: &Vec<char>) -> (r: Option<u32>)
    ensures
        opt_u32(r) == parse_uint(s@, u32::MAX as nat),
{
    match parse_u64_chars(s) {
        Some(v) => {
            if v <= u32::MAX as u64 {
                Some(v as u32)
            } else {
                None
            }
        },
        None => None,
    }
}

/// The decimal digit character for `d < 10`.
pub open spec fn digit_char(d: nat) -> char {
    (d + '0' as nat) as char
}

/// The decimal representation of `n`, without leading zeros.
pub open spec fn dec(n: nat) -> Seq<char>
    decreases n,
{
    if n < 10 {
        seq![digit_char(n)]
    } else {
        dec(n / 10).push(digit_char(n % 10))
    }
}

fn digit_to_char(d: u64) -> (c: char)
    requires
        d < 10,
    ensures
        c == digit_char(d as nat),
{
    let digits = ['0', '1', '2', '3', '4', '5', '6', '7', '8', '9'];
    let c = digits[d as usize];
    assert(digits@ == seq!['0', '1', '2', '3', '4', '5', '6', '7', '8', '9']);
    c
}

/// The decimal representation of `n` (std's `to_string` for integers).
pub fn dec_chars(n: u64) -> (r: Vec<char>)
    ensures
        r@ == dec(n as nat),
    decreases n,
{
    if n < 10 {
        let mut v: Vec<char> = Vec::new();
        v.push(digit_to_char(n));
        assert(v@ =~= seq![digit_char(n as nat)]);
        v
    } else {
        let mut v = dec_chars(n / 10);
        v.push(digit_to_char(n % 10));
        v
    }
}

/// The decimal representation of `n` as a string.
pub fn dec_string(n: u64) -> (r: String)
    ensures
        r@ == dec(n as nat),
{
    let v = dec_chars(n);
    string_of(&v)
}

// ---------------------------------------------------------------------------
// Words
// ---------------------------------------------------------------------------

/// The maximal runs of non-whitespace characters of `s`, in order (std's
/// `split_whitespace`).
pub open spec fn words(s: Seq<char>) -> Seq<Seq<char>>
    decreases s.len(),
{
    if s.len() == 0 {
        Seq::empty()
    } else {
        let ws = words(s.drop_last());
        let c = s.last();
        if is_ws(c) {
            ws
        } else if s.len() >= 2 && !is_ws(s[s.len() - 2]) {
            ws.update(ws.len() - 1, ws.last().push(c))
        } else {
            ws.push(seq![c])
        }
    }
}

/// The pieces of `ws` with `sep` between consecutive ones (std's `join`).
pub open spec fn join(ws: Seq<Seq<char>>, sep: Seq<char>) -> Seq<char>
    decreases ws.len(),
{
    if ws.len() == 0 {
        Seq::empty()
    } else if ws.len() == 1 {
        ws[0]
    } else {
        join(ws.drop_last(), sep) + sep + ws.last()
    }
}

/// The words of `s` separated by single spaces.
pub open spec fn collapse_ws(s: Seq<char>) -> Seq<char> {
    join(words(s), seq![' '])
}

pub proof fn lemma_words_nonempty(s: Seq<char>)
    requires
        s.len() > 0,
        !is_ws(s.last()),
    ensures
        words(s).len() > 0,
    decreases s.len(),
{
    if s.len() >= 2 && !is_ws(s[s.len() - 2]) {
        lemma_words_nonempty(s.drop_last());
    }
}

proof fn lemma_join_push(ws: Seq<Seq<char>>, w: Seq<char>, sep: Seq<char>)
    ensures
        join(ws.push(w), sep) == if ws.len() == 0 {
            w
        } else {
            join(ws, sep) + sep + w
        },
{
    assert(ws.push(w).drop_last() =~= ws);
}

proof fn lemma_join_extend_last(ws: Seq<Seq<char>>, c: char, sep: Seq<char>)
    requires
        ws.len() > 0,
    ensures
        join(ws.update(ws.len() - 1, ws.last().push(c)), sep) == join(ws, sep).push(c),
{
    let u = ws.update(ws.len() - 1, ws.last().push(c));
    if ws.len() >= 2 {
        assert(u.drop_last() =~= ws.drop_last());
        assert(join(ws.drop_last(), sep) + sep + ws.last().push(c) =~= (join(ws.drop_last(), sep)
            + sep + ws.last()).push(c));
    }
}

/// Collapses every run of whitespace into one space and drops whitespace at
/// both ends (`split_whitespace().collect::<Vec<_>>().join(" ")`).
pub fn collapse_ws_chars(s: &Vec<char>) -> (r: Vec<char>)
    ensures
        r@ == collapse_ws(s@),
{
    let mut r: Vec<char> = Vec::new();
    let mut pending = false;
    let mut i: usize = 0;
    assert(s@.take(0) =~= Seq::<char>::empty());
    while i < s.len()
        invariant
            i <= s@.len(),
            r@ == join(words(s@.take(i as int)), seq![' ']),
            pending == (words(s@.take(i as int)).len() > 0 && i > 0 && is_ws(s@[i - 1])),
            r@.len() == 0 <==> words(s@.take(i as int)).len() == 0,
        decreases s@.len() - i,
    {
        let c = s[i];
        let ghost t = s@.take(i as int);
        let ghost t2 = s@.take(i + 1);
        assert(t2.drop_last() =~= t);
        assert(t2.last() == c);
        if is_whitespace(c) {
            if r.len() > 0 {
                pending = true;
            }
        } else {
            proof {
                if i > 0 {
                    assert(t2[t2.len() - 2] == s@[i - 1]);
                }
            }
            if pending {
                proof {
                    lemma_join_push(words(t), seq![c], seq![' ']);
                }
                r.push(' ');
                r.push(c);
                assert(r@ =~= join(words(t), seq![' ']) + seq![' '] + seq![c]);
            } else {
                proof {
                    if i > 0 && !is_ws(s@[i - 1]) {
                        assert(t.last() == s@[i - 1]);
                        lemma_words_nonempty(t);
                        lemma_join_extend_last(words(t), c, seq![' ']);
                    } else {
                        lemma_join_push(words(t), seq![c], seq![' ']);
                        assert(r@ =~= Seq::<char>::empty());
                    }
                }
                r.push(c);
                assert(i == 0 || is_ws(s@[i - 1]) ==> r@ =~= seq![c]);
            }
            pending = false;
        }
        i += 1;
    }
    assert(s@.take(s@.len() as int) =~= s@);
    r
}

// ---------------------------------------------------------------------------
// Case mapping and prefix stripping
// ---------------------------------------------------------------------------

/// What std's `char::to_uppercase` yields for `c`, as a string.
pub uninterp spec fn char_upper(c: char) -> Seq<char>;

/// Calls std's `char::to_uppercase` and collects the result; the contract
/// claims only that the result is the Unicode uppercase mapping of `c`, a
/// function of `c` alone.
#[verifier::external_body]
pub(crate) fn upper_char(c: char) -> (r: String)
    ensures
        r@ == char_upper(c),
{
    c.to_uppercase().collect()
}

/// What std's `str::to_lowercase` returns for `s`.
pub uninterp spec fn lowercase(s: Seq<char>) -> Seq<char>;

/// Calls std's `str::to_lowercase`; the contract claims only that the result
/// is the Unicode lowercase mapping of `s`, a function of `s` alone.
#[verifier::external_body]
pub(crate) fn lowercase_str(s: &str) -> (r: String)
    ensures
        r@ == lowercase(s@),
{
    s.to_lowercase()
}

/// `s` without any leading `c` (std's `trim_start_matches(c)`).
pub open spec fn strip_leading(s: Seq<char>, c: char) -> Seq<char>
    decreases s.len(),
{
    if s.len() > 0 && s[0] == c {
        strip_leading(s.drop_first(), c)
    } else {
        s
    }
}

/// `s` without any trailing `c` (std's `trim_end_matches(c)`).
pub open spec fn strip_trailing(s: Seq<char>, c: char) -> Seq<char>
    decreases s.len(),
{
    if s.len() > 0 && s.last() == c {
        strip_trailing(s.drop_last(), c)
    } else {
        s
    }
}

proof fn lemma_strip_leading_skip(s: Seq<char>, c: char, i: int)
    requires
        0 <= i <= s.len(),
        forall|j: int| 0 <= j < i ==> s[j] == c,
        i == s.len() || s[i] != c,
    ensures
        strip_leading(s, c) == s.skip(i),
    decreases i,
{
    if i > 0 {
        assert(s.drop_first().skip(i - 1) =~= s.skip(i));
        lemma_strip_leading_skip(s.drop_first(), c, i - 1);
    } else {
        assert(s.skip(0) =~= s);
    }
}

proof fn lemma_strip_trailing_take(s: Seq<char>, c: char, i: int)
    requires
        0 <= i <= s.len(),
        forall|j: int| i <= j < s.len() ==> s[j] == c,
        i == 0 || s[i - 1] != c,
    ensures
        strip_trailing(s, c) == s.take(i),
    decreases s.len() - i,
{
    if i < s.len() {
        assert(s.drop_last().take(i) =~= s.take(i));
        lemma_strip_trailing_take(s.drop_last(), c, i);
    } else {
        assert(s.take(i) =~= s);
    }
}

/// `s` without any leading `c`.
pub fn strip_leading_chars(s: &Vec<char>, c: char) -> (r: Vec<char>)
    ensures
        r@ == strip_leading(s@, c),
{
    let mut i: usize = 0;
    while i < s.len() && s[i] == c
        invariant
            i <= s@.len(),
            forall|j: int| 0 <= j < i ==> s@[j] == c,
        decreases s@.len() - i,
    {
        i += 1;
    }
    proof {
        lemma_strip_leading_skip(s@, c, i as int);
    }
    assert(s@.subrange(i as int, s@.len() as int) =~= s@.skip(i as int));
    slice_chars(s, i, s.len())
}

/// `s` without any trailing `c`.
pub fn strip_trailing_chars(s: &Vec<char>, c: char) -> (r: Vec<char>)
    ensures
        r@ == strip_trailing(s@, c),
{
    let mut i: usize = s.len();
    while i > 0 && s[i - 1] == c
        invariant
            i <= s@.len(),
            forall|j: int| i <= j < s@.len() ==> s@[j] == c,
        decreases i,
    {
        i -= 1;
    }
    proof {
        lemma_strip_trailing_take(s@, c, i as int);
    }
    slice_chars(s, 0, i)
}

// ---------------------------------------------------------------------------
// Repeated matches and pieces
// ---------------------------------------------------------------------------

proof fn lemma_first_match_exists(s: Seq<char>, p: Seq<char>, from: int, i: int)
    requires
        from <= i,
        matches_at(s, p, i),
    ensures
        exists|k: int| is_first_match_from(s, p, from, k),
    decreases i - from,
{
    if exists|j: int| from <= j < i && #[trigger] matches_at(s, p, j) {
        let j = choose|j: int| from <= j < i && #[trigger] matches_at(s, p, j);
        lemma_first_match_exists(s, p, from, j);
    } else {
        assert(is_first_match_from(s, p, from, i));
    }
}

/// What `find_from` gives: the first match at or after `from`, or no match
/// there at all.
pub proof fn lemma_find_from_spec(s: Seq<char>, p: Seq<char>, from: int)
    ensures
        match find_from(s, p, from) {
            Some(i) => is_first_match_from(s, p, from, i),
            None => forall|j: int| from <= j ==> !#[trigger] matches_at(s, p, j),
        },
{
    if exists|i: int| from <= i && #[trigger] matches_at(s, p, i) {
        let i = choose|i: int| from <= i && #[trigger] matches_at(s, p, i);
        lemma_first_match_exists(s, p, from, i);
    }
}

/// The pieces of `s[from..]` between the occurrences of a non-empty `p`
/// (std's `split`).
pub open spec fn pieces_from(s: Seq<char>, p: Seq<char>, from: int) -> Seq<Seq<char>>
    decreases s.len() - from,
{
    if p.len() == 0 || from < 0 || from > s.len() {
        Seq::empty()
    } else {
        match find_from(s, p, from) {
            None => seq![s.subrange(from, s.len() as int)],
            Some(i) => {
                proof {
                    lemma_find_from_spec(s, p, from);
                }
                seq![s.subrange(from, i)] + pieces_from(s, p, i + p.len())
            },
        }
    }
}

/// The non-overlapping occurrences of a non-empty `p` in `s` at or after
/// `from`, left to right (std's `match_indices`).
pub open spec fn match_positions(s: Seq<char>, p: Seq<char>, from: int) -> Seq<int>
    decreases s.len() - from,
{
    if p.len() == 0 || from < 0 || from > s.len() {
        Seq::empty()
    } else {
        match find_from(s, p, from) {
            None => Seq::empty(),
            Some(i) => {
                proof {
                    lemma_find_from_spec(s, p, from);
                }
                seq![i] + match_positions(s, p, i + p.len())
            },
        }
    }
}

/// The leading run of decimal digits of `s` (`take_while(is_ascii_digit)`).
pub open spec fn digits_prefix(s: Seq<char>) -> Seq<char>
    decreases s.len(),
{
    if s.len() > 0 && is_digit(s[0]) {
        seq![s[0]] + digits_prefix(s.drop_first())
    } else {
        Seq::empty()
    }
}

proof fn lemma_digits_prefix_take(s: Seq<char>, i: int)
    requires
        0 <= i <= s.len(),
        forall|j: int| 0 <= j < i ==> is_digit(#[trigger] s[j]),
        i == s.len() || !is_digit(s[i]),
    ensures
        digits_prefix(s) == s.take(i),
    decreases i,
{
    if i > 0 {
        assert forall|j: int| 0 <= j < i - 1 implies is_digit(#[trigger] s.drop_first()[j]) by {
            assert(s.drop_first()[j] == s[j + 1]);
        }
        lemma_digits_prefix_take(s.drop_first(), i - 1);
        assert(seq![s[0]] + s.drop_first().take(i - 1) =~= s.take(i));
    } else {
        assert(s.take(0) =~= Seq::<char>::empty());
    }
}

/// The leading digits of `s[from..]`.
pub fn digits_prefix_exec(s: &Vec<char>, from: usize) -> (r: Vec<char>)
    requires
        from <= s@.len(),
    ensures
        r@ == digits_prefix(s@.skip(from as int)),
{
    let mut i = from;
    while i < s.len() && '0' <= s[i] && s[i] <= '9'
        invariant
            from <= i <= s@.len(),
            forall|j: int| from <= j < i ==> is_digit(#[trigger] s@[j]),
        decreases s@.len() - i,
    {
        i += 1;
    }
    let ghost t = s@.skip(from as int);
    proof {
        assert forall|j: int| 0 <= j < i - from implies is_digit(#[trigger] t[j]) by {
            assert(t[j] == s@[j + from]);
        }
        if i < s@.len() {
            assert(t[i - from] == s@[i as int]);
        }
        lemma_digits_prefix_take(t, i - from);
    }
    assert(t.take(i - from) =~= s@.subrange(from as int, i as int));
    slice_chars(s, from, i)
}

/// The first index of `s` holding one of `set`.
pub open spec fn first_of_any(s: Seq<char>, set: Seq<char>) -> Option<int> {
    if exists|i: int| 0 <= i < s.len() && set.contains(s[i]) {
        Some(
            choose|i: int|
                0 <= i < s.len() && set.contains(s[i]) && forall|j: int|
                    0 <= j < i ==> !set.contains(#[trigger] s[j]),
        )
    } else {
        None
    }
}

/// The first index at or after `from` holding one of `set`.
pub fn first_of_any_exec(s: &Vec<char>, set: &Vec<char>, from: usize) -> (r: Option<usize>)
    requires
        from <= s@.len(),
    ensures
        r matches Some(i) ==> from <= i < s@.len() && first_of_any(s@.skip(from as int), set@)
            == Some(i - from),
        r is None ==> first_of_any(s@.skip(from as int), set@) is None,
{
    let ghost t = s@.skip(from as int);
    let mut i = from;
    while i < s.len()
        invariant
            from <= i <= s@.len(),
            t == s@.skip(from as int),
            forall|j: int| 0 <= j < i - from ==> !set@.contains(#[trigger] t[j]),
        decreases s@.len() - i,
    {
        let c = s[i];
        let mut k: usize = 0;
        let mut hit = false;
        while k < set.len()
            invariant
                k <= set@.len(),
                hit == exists|m: int| 0 <= m < k && set@[m] == c,
            decreases set@.len() - k,
        {
            if set[k] == c {
                hit = true;
            }
            k += 1;
        }
        assert(t[i - from] == c);
        if hit {
            proof {
                let m = choose|m: int| 0 <= m < set@.len() && set@[m] == c;
                assert(set@.contains(t[i - from]));
                let w = (i - from) as int;
                let ch = choose|x: int|
                    0 <= x < t.len() && set@.contains(t[x]) && forall|j: int|
                        0 <= j < x ==> !set@.contains(#[trigger] t[j]);
                assert(0 <= w < t.len() && set@.contains(t[w]) && forall|j: int|
                    0 <= j < w ==> !set@.contains(#[trigger] t[j]));
                if ch < w {
                    assert(!set@.contains(t[ch]));
                }
                if w < ch {
                    assert(!set@.contains(t[w]));
                }
            }
            return Some(i);
        }
        assert(!set@.contains(c));
        i += 1;
    }
    None
}

// ---------------------------------------------------------------------------
// Splitting into pieces, lines and replacing
// ---------------------------------------------------------------------------

/// The views of a list of character vectors.
pub open spec fn vecs_view(v: Seq<Vec<char>>) -> Seq<Seq<char>> {
    v.map_values(|x: Vec<char>| x@)
}

/// Unfolds `pieces_from` one step.
pub proof fn lemma_pieces_step(s: Seq<char>, p: Seq<char>, from: int)
    requires
        p.len() > 0,
        0 <= from <= s.len(),
    ensures
        match find_from(s, p, from) {
            None => pieces_from(s, p, from) == seq![s.subrange(from, s.len() as int)],
            Some(i) => pieces_from(s, p, from) == seq![s.subrange(from, i)] + pieces_from(
                s,
                p,
                i + p.len(),
            ) && from <= i && i + p.len() <= s.len(),
        },
{
    lemma_find_from_spec(s, p, from);
}

/// The pieces of `s` between the occurrences of a non-empty `p` (std's
/// `split`).
pub fn split_pieces(s: &Vec<char>, p: &Vec<char>) -> (r: Vec<Vec<char>>)
    requires
        p@.len() > 0,
    ensures
        vecs_view(r@) == pieces_from(s@, p@, 0),
{
    let mut out: Vec<Vec<char>> = Vec::new();
    let mut from: usize = 0;
    let _n = s.len();
    loop
        invariant
            p@.len() > 0,
            from <= s@.len(),
            pieces_from(s@, p@, 0) == vecs_view(out@) + pieces_from(s@, p@, from as int),
        decreases s@.len() - from,
    {
        proof {
            lemma_pieces_step(s@, p@, from as int);
        }
        let _n = s.len();
        let next = find_from_exec(s, p, from);
        let end = match next {
            Some(j) => j,
            None => s.len(),
        };
        let piece = slice_chars(s, from, end);
        let ghost before = vecs_view(out@);
        out.push(piece);
        assert(vecs_view(out@) =~= before.push(piece@));
        match next {
            None => {
                assert(vecs_view(out@) =~= before + pieces_from(s@, p@, from as int));
                return out;
            },
            Some(j) => {
                assert(matches_at(s@, p@, j as int));
                assert(before + (seq![piece@] + pieces_from(s@, p@, j + p@.len())) =~= vecs_view(
                    out@,
                ) + pieces_from(s@, p@, j + p@.len()));
                from = j + p.len();
            },
        }
    }
}

/// `s` without one trailing carriage return.
pub open spec fn strip_cr(s: Seq<char>) -> Seq<char> {
    if s.len() > 0 && s.last() == '\r' {
        s.drop_last()
    } else {
        s
    }
}

/// The lines of `ps`, the pieces of a text between its newlines: every
/// newline-terminated piece loses one trailing carriage return, and an empty
/// final piece is no line.
pub open spec fn lines_of_pieces(ps: Seq<Seq<char>>) -> Seq<Seq<char>> {
    let n = ps.len();
    let body = Seq::new((n - 1) as nat, |i: int| strip_cr(ps[i]));
    if n == 0 {
        Seq::empty()
    } else if ps[n - 1].len() == 0 {
        body
    } else {
        body.push(ps[n - 1])
    }
}

/// The lines of `s` (std's `str::lines`).
pub open spec fn lines_of(s: Seq<char>) -> Seq<Seq<char>> {
    lines_of_pieces(pieces_from(s, seq!['\n'], 0))
}

/// The lines of a text.
pub fn lines_exec(s: &Vec<char>) -> (r: Vec<Vec<char>>)
    ensures
        vecs_view(r@) == lines_of(s@),
{
    let nl = vec!['\n'];
    let ps = split_pieces(s, &nl);
    let ghost pv = vecs_view(ps@);
    assert(nl@ =~= seq!['\n']);
    let n = ps.len();
    let mut out: Vec<Vec<char>> = Vec::new();
    if n == 0 {
        assert(vecs_view(out@) =~= lines_of_pieces(pv));
        return out;
    }
    let mut i: usize = 0;
    while i + 1 < n
        invariant
            n == ps@.len(),
            n >= 1,
            pv == vecs_view(ps@),
            i < n,
            out@.len() == i,
            forall|k: int| 0 <= k < i ==> (#[trigger] out@[k])@ == strip_cr(pv[k]),
        decreases n - i,
    {
        let piece = &ps[i];
        let line = if piece.len() > 0 && piece[piece.len() - 1] == '\r' {
            slice_chars(piece, 0, piece.len() - 1)
        } else {
            slice_chars(piece, 0, piece.len())
        };
        assert(line@ =~= strip_cr(pv[i as int]));
        out.push(line);
        i += 1;
    }
    let ghost body = Seq::new((n - 1) as nat, |k: int| strip_cr(pv[k]));
    assert(vecs_view(out@) =~= body);
    let last = &ps[n - 1];
    if last.len() > 0 {
        let l = slice_chars(last, 0, last.len());
        assert(l@ =~= pv[n - 1]);
        out.push(l);
        assert(vecs_view(out@) =~= body.push(pv[n - 1]));
    }
    assert(vecs_view(out@) =~= lines_of_pieces(pv));
    out
}

/// `s` with every non-overlapping occurrence of a non-empty `p`, left to
/// right, replaced by `r` (std's `str::replace`).
pub open spec fn replace_all(s: Seq<char>, p: Seq<char>, r: Seq<char>) -> Seq<char>
    decreases s.len(),
{
    if p.len() == 0 {
        s
    } else {
        match find(s, p) {
            None => s,
            Some(i) => {
                proof {
                    lemma_find_from_spec(s, p, 0);
                }
                s.take(i) + r + replace_all(s.skip(i + p.len()), p, r)
            },
        }
    }
}

proof fn lemma_find_shift(s: Seq<char>, p: Seq<char>, from: int)
    requires
        0 <= from <= s.len(),
    ensures
        match find_from(s, p, from) {
            Some(i) => find(s.skip(from), p) == Some(i - from),
            None => find(s.skip(from), p) is None,
        },
{
    let t = s.skip(from);
    lemma_find_from_spec(s, p, from);
    assert forall|j: int| #[trigger] matches_at(t, p, j) <==> j >= 0 && matches_at(s, p, j + from) by {
        if 0 <= j && j + p.len() <= t.len() {
            assert(t.subrange(j, j + p.len()) =~= s.subrange(j + from, j + from + p.len()));
        }
    }
    match find_from(s, p, from) {
        Some(i) => {
            assert(is_first_match_from(t, p, 0, i - from));
            lemma_find_from_is(t, p, 0, i - from);
        },
        None => {
            lemma_find_from_none(t, p, 0);
        },
    }
}

/// Replaces every occurrence of a non-empty `p` in `s` by `r`.
pub fn replace_all_exec(s: &Vec<char>, p: &Vec<char>, r: &Vec<char>) -> (out: Vec<char>)
    requires
        p@.len() > 0,
    ensures
        out@ == replace_all(s@, p@, r@),
{
    let mut out: Vec<char> = Vec::new();
    let mut from: usize = 0;
    let _n = s.len();
    assert(s@.skip(0) =~= s@);
    loop
        invariant
            p@.len() > 0,
            from <= s@.len(),
            replace_all(s@, p@, r@) == out@ + replace_all(s@.skip(from as int), p@, r@),
        decreases s@.len() - from,
    {
        proof {
            lemma_find_shift(s@, p@, from as int);
        }
        let _n = s.len();
        match find_from_exec(s, p, from) {
            None => {
                let rest = slice_chars(s, from, s.len());
                assert(rest@ =~= s@.skip(from as int));
                push_all(&mut out, &rest);
                return out;
            },
            Some(i) => {
                assert(matches_at(s@, p@, i as int));
                let ghost t = s@.skip(from as int);
                let ghost k = i - from;
                let head = slice_chars(s, from, i);
                assert(head@ =~= t.take(k));
                assert(t.skip(k + p@.len()) =~= s@.skip(i + p@.len()));
                let ghost o = out@;
                push_all(&mut out, &head);
                push_all(&mut out, r);
                assert(o + (t.take(k) + r@ + replace_all(t.skip(k + p@.len()), p@, r@)) =~= out@
                    + replace_all(s@.skip(i + p@.len()), p@, r@));
                from = i + p.len();
            },
        }
    }
}

// ---------------------------------------------------------------------------
// Ordering
// ---------------------------------------------------------------------------

/// `a` sorts strictly before `b`, character by character (the order of
/// std's `Ord` for strings: UTF-8 bytes order as their code points do).
pub open spec fn lex_lt(a: Seq<char>, b: Seq<char>) -> bool
    decreases a.len(),
{
    if a.len() == 0 {
        b.len() > 0
    } else if b.len() == 0 {
        false
    } else if a[0] != b[0] {
        a[0] < b[0]
    } else {
        lex_lt(a.drop_first(), b.drop_first())
    }
}

pub proof fn lemma_lex_transitive(a: Seq<char>, b: Seq<char>, c: Seq<char>)
    requires
        lex_lt(a, b),
        lex_lt(b, c),
    ensures
        lex_lt(a, c),
    decreases a.len(),
{
    if a.len() > 0 && b.len() > 0 && c.len() > 0 && a[0] == b[0] && b[0] == c[0] {
        lemma_lex_transitive(a.drop_first(), b.drop_first(), c.drop_first());
    }
}

pub proof fn lemma_lex_total(a: Seq<char>, b: Seq<char>)
    ensures
        a == b || lex_lt(a, b) || lex_lt(b, a),
    decreases a.len(),
{
    if a.len() > 0 && b.len() > 0 && a[0] == b[0] {
        lemma_lex_total(a.drop_first(), b.drop_first());
        if a.drop_first() == b.drop_first() {
            assert(a =~= seq![a[0]] + a.drop_first());
            assert(b =~= seq![b[0]] + b.drop_first());
        }
    } else if a.len() == 0 && b.len() == 0 {
        assert(a =~= b);
    }
}

pub proof fn lemma_lex_asymmetric(a: Seq<char>, b: Seq<char>)
    requires
        lex_lt(a, b),
    ensures
        !lex_lt(b, a),
    decreases a.len(),
{
    if a.len() > 0 && b.len() > 0 && a[0] == b[0] {
        lemma_lex_asymmetric(a.drop_first(), b.drop_first());
    }
}

/// Whether `a` sorts strictly before `b`.
pub fn lex_less(a: &Vec<char>, b: &Vec<char>) -> (r: bool)
    ensures
        r == lex_lt(a@, b@),
{
    let mut i: usize = 0;
    assert(a@.skip(0) =~= a@ && b@.skip(0) =~= b@);
    while i < a.len() && i < b.len() && a[i] == b[i]
        invariant
            i <= a@.len(),
            i <= b@.len(),
            lex_lt(a@, b@) == lex_lt(a@.skip(i as int), b@.skip(i as int)),
        decreases a@.len() - i,
    {
        let ghost sa = a@.skip(i as int);
        let ghost sb = b@.skip(i as int);
        assert(sa.drop_first() =~= a@.skip(i + 1));
        assert(sb.drop_first() =~= b@.skip(i + 1));
        i += 1;
    }
    let ghost sa = a@.skip(i as int);
    let ghost sb = b@.skip(i as int);
    if i == a.len() {
        i < b.len()
    } else if i == b.len() {
        false
    } else {
        assert(sa[0] == a@[i as int] && sb[0] == b@[i as int]);
        a[i] < b[i]
    }
}

} // verus!
