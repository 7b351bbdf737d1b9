//! nhentai helpers: per-endpoint request budgets, query building, image URLs,
//! title cleaning and tag labels.
use vstd::prelude::*;
use crate::model::{
    MangaSimple, SelectOption,
};
use crate::sources::nhentai::api::{EndpointClass, V2GalleryListItem, first_title};
use crate::text::{
    chars_of, char_upper, collapse_ws, collapse_ws_chars, dec, dec_string, is_ws, join,
    lemma_collapse_ws_empty, lemma_collapse_ws_idempotent, lemma_trim_idempotent,
    lemma_trim_split, opt_string, owned, push_all, push_str, starts_with, starts_with_exec, str_eq, string_of, strip_leading,
    strip_leading_chars, trim, trim_chars, upper_char, words,
};

verus! {

/// Requests per minute nhentai allows one client on an endpoint family,
/// with an API key (`authenticated`) or without.
pub open spec fn endpoint_limit(endpoint: EndpointClass, authenticated: bool) -> u32 {
    if authenticated {
        match endpoint {
            EndpointClass::Search => 20,
            EndpointClass::GalleryDetail => 45,
            EndpointClass::Media => 240,
            EndpointClass::Galleries => 30,
            EndpointClass::Random => 30,
            EndpointClass::Related => 30,
            EndpointClass::Tagged => 30,
            EndpointClass::Popular => 30,
            EndpointClass::Config => 30,
            EndpointClass::Captcha => 12,
            EndpointClass::Default => 30,
        }
    } else {
        match endpoint {
            EndpointClass::Search => 10,
            EndpointClass::GalleryDetail => 20,
            EndpointClass::Media => 180,
            EndpointClass::Galleries => 15,
            EndpointClass::Random => 20,
            EndpointClass::Related => 12,
            EndpointClass::Tagged => 15,
            EndpointClass::Popular => 15,
            EndpointClass::Config => 15,
            EndpointClass::Captcha => 6,
            EndpointClass::Default => 15,
        }
    }
}

/// The per-minute request ceiling of an endpoint family.
pub fn get_endpoint_rate_limit(endpoint: EndpointClass, authenticated: bool) -> (r: u32)
    ensures
        r == endpoint_limit(endpoint, authenticated),
{
    match authenticated {
        true => match endpoint {
            EndpointClass::Search => 20,
            EndpointClass::GalleryDetail => 45,
            EndpointClass::Media => 240,
            EndpointClass::Galleries => 30,
            EndpointClass::Random => 30,
            EndpointClass::Related => 30,
            EndpointClass::Tagged => 30,
            EndpointClass::Popular => 30,
            EndpointClass::Config => 30,
            EndpointClass::Captcha => 12,
            EndpointClass::Default => 30,
        },
        false => match endpoint {
            EndpointClass::Search => 10,
            EndpointClass::GalleryDetail => 20,
            EndpointClass::Media => 180,
            EndpointClass::Galleries => 15,
            EndpointClass::Random => 20,
            EndpointClass::Related => 12,
            EndpointClass::Tagged => 15,
            EndpointClass::Popular => 15,
            EndpointClass::Config => 15,
            EndpointClass::Captcha => 6,
            EndpointClass::Default => 15,
        },
    }
}

/// A key having an API key never lowers a ceiling.
pub proof fn lemma_key_never_lowers_a_limit(endpoint: EndpointClass)
    ensures
        endpoint_limit(endpoint, false) <= endpoint_limit(endpoint, true),
{
}

/// Select options whose id and label are both the given label.
pub fn opts(labels: &[&str]) -> (r: Vec<SelectOption>)
    ensures
        r@.len() == labels@.len(),
        forall|i: int|
            0 <= i < labels@.len() ==> (#[trigger] r@[i]).id@ == labels@[i]@ && r@[i].label@
                == labels@[i]@,
{
    let mut r: Vec<SelectOption> = Vec::new();
    let mut i: usize = 0;
    while i < labels.len()
        invariant
            i <= labels@.len(),
            r@.len() == i,
            forall|k: int|
                0 <= k < i ==> (#[trigger] r@[k]).id@ == labels@[k]@ && r@[k].label@
                    == labels@[k]@,
        decreases labels@.len() - i,
    {
        let s = labels[i];
        r.push(SelectOption { id: owned(s), label: owned(s) });
        i += 1;
    }
    r
}

/// `query` followed by the preferred language in quotes (unless it is `all`
/// or empty), trimmed; a blank query becomes `""`.
pub open spec fn language_query(query: Seq<char>, lang: Seq<char>) -> Seq<char> {
    let q = if lang != "all"@ && lang.len() > 0 {
        query + " \""@ + lang + "\""@
    } else {
        query
    };
    if trim(q).len() == 0 {
        "\"\""@
    } else {
        trim(q)
    }
}

/// Adds the preferred language (the `language` setting, `lang`) to a search
/// query.
pub fn apply_language_preference(query: String, lang: &str) -> (r: String)
    ensures
        r@ == language_query(query@, lang@),
{
    let mut q = chars_of(query.as_str());
    if !str_eq(lang, "all") && !lang.is_empty() {
        push_str(&mut q, " \"");
        push_str(&mut q, lang);
        push_str(&mut q, "\"");
    }
    let t = trim_chars(&q);
    if t.len() == 0 {
        owned("\"\"")
    } else {
        string_of(&t)
    }
}

/// `query` followed by the language, included-tags and excluded-tags
/// settings, each when set, trimmed.
pub open spec fn global_query(
    query: Seq<char>,
    lang: Seq<char>,
    included: Seq<char>,
    excluded: Seq<char>,
) -> Seq<char> {
    let q1 = if lang != "all"@ && lang.len() > 0 {
        query + " language:"@ + lang
    } else {
        query
    };
    let q2 = if included.len() > 0 {
        q1 + " "@ + included
    } else {
        q1
    };
    let q3 = if excluded.len() > 0 {
        q2 + " "@ + excluded
    } else {
        q2
    };
    trim(q3)
}

/// Adds the global settings (`language`, `global_included`,
/// `global_excluded`) to a query.
pub fn apply_global_query_settings(
    query: String,
    lang: &str,
    included: &str,
    excluded: &str,
) -> (r: String)
    ensures
        r@ == global_query(query@, lang@, included@, excluded@),
{
    let mut q = chars_of(query.as_str());
    if !str_eq(lang, "all") && !lang.is_empty() {
        push_str(&mut q, " language:");
        push_str(&mut q, lang);
    }
    if !included.is_empty() {
        push_str(&mut q, " ");
        push_str(&mut q, included);
    }
    if !excluded.is_empty() {
        push_str(&mut q, " ");
        push_str(&mut q, excluded);
    }
    let t = trim_chars(&q);
    string_of(&t)
}

/// The CDN an image is served from.
pub open spec fn image_cdn(is_thumb: bool) -> Seq<char> {
    if is_thumb {
        "https://t.nhentai.net"@
    } else {
        "https://i.nhentai.net"@
    }
}

/// An absolute path is kept; a relative one is put on the thumbnail or image
/// CDN.
pub open spec fn image_url(path: Seq<char>, is_thumb: bool) -> Seq<char> {
    if starts_with(path, "http"@) {
        path
    } else {
        image_cdn(is_thumb) + "/"@ + strip_leading(path, '/')
    }
}

/// The full URL of an image path.
pub fn build_image_url(path: &str, is_thumb: bool) -> (r: String)
    ensures
        r@ == image_url(path@, is_thumb),
{
    let p = chars_of(path);
    let http = chars_of("http");
    if starts_with_exec(&p, &http) {
        return owned(path);
    }
    let mut v: Vec<char> = if is_thumb {
        chars_of("https://t.nhentai.net")
    } else {
        chars_of("https://i.nhentai.net")
    };
    push_str(&mut v, "/");
    let clean = strip_leading_chars(&p, '/');
    push_all(&mut v, &clean);
    string_of(&v)
}

pub open spec fn is_open_bracket(c: char) -> bool {
    c == '[' || c == '(' || c == '{'
}

pub open spec fn is_close_bracket(c: char) -> bool {
    c == ']' || c == ')' || c == '}'
}

/// How many brackets are open after reading `s`; a stray closer is ignored.
pub open spec fn bracket_depth(s: Seq<char>) -> nat
    decreases s.len(),
{
    if s.len() == 0 {
        0
    } else {
        let d = bracket_depth(s.drop_last());
        let c = s.last();
        if is_open_bracket(c) {
            d + 1
        } else if is_close_bracket(c) {
            if d > 0 {
                (d - 1) as nat
            } else {
                0
            }
        } else {
            d
        }
    }
}

/// The characters of `s` outside every bracket pair, brackets dropped.
pub open spec fn outside_brackets(s: Seq<char>) -> Seq<char>
    decreases s.len(),
{
    if s.len() == 0 {
        Seq::empty()
    } else {
        let o = outside_brackets(s.drop_last());
        let c = s.last();
        if !is_open_bracket(c) && !is_close_bracket(c) && bracket_depth(s.drop_last()) == 0 {
            o.push(c)
        } else {
            o
        }
    }
}

/// The words outside brackets, single-spaced; when there are none, the raw
/// title trimmed.
pub open spec fn pretty(raw: Seq<char>) -> Seq<char> {
    let collapsed = collapse_ws(outside_brackets(raw));
    if collapsed.len() == 0 {
        trim(raw)
    } else {
        collapsed
    }
}

/// Strips the bracketed metadata a raw nhentai title is wrapped in:
/// `[Artist] Title (Convention) [English] {Decensored}` becomes `Title`.
///
/// The list endpoints behind the homepage and search carry only the raw
/// english and japanese strings, while the detail endpoint ships the cleaned
/// form; cleaning here keeps a card reading the same as the page it opens.
///
/// A title that is nothing but metadata keeps its raw form: a blank card is
/// worse than a noisy one.
pub fn pretty_title(raw: &str) -> (r: String)
    ensures
        r@ == pretty(raw@),
{
    let s = chars_of(raw);
    let mut out: Vec<char> = Vec::new();
    let mut depth: usize = 0;
    let mut i: usize = 0;
    assert(s@.take(0) =~= Seq::<char>::empty());
    while i < s.len()
        invariant
            i <= s@.len(),
            depth == bracket_depth(s@.take(i as int)),
            depth <= i,
            out@ == outside_brackets(s@.take(i as int)),
        decreases s@.len() - i,
    {
        let ch = s[i];
        let ghost t = s@.take(i as int);
        assert(s@.take(i + 1).drop_last() =~= t);
        assert(s@.take(i + 1).last() == ch);
        if ch == '[' || ch == '(' || ch == '{' {
            depth += 1;
        } else if ch == ']' || ch == ')' || ch == '}' {
            if depth > 0 {
                depth -= 1;
            }
        } else if depth == 0 {
            out.push(ch);
        }
        i += 1;
    }
    assert(s@.take(s@.len() as int) =~= s@);
    let collapsed = collapse_ws_chars(&out);
    if collapsed.len() == 0 {
        let t = trim_chars(&s);
        string_of(&t)
    } else {
        string_of(&collapsed)
    }
}

pub open spec fn bracket_free(c: char) -> bool {
    !is_open_bracket(c) && !is_close_bracket(c)
}

/// When some word stands outside the brackets, the cleaned title holds no
/// bracket at all.
pub proof fn lemma_pretty_title_has_no_brackets(raw: Seq<char>, i: int)
    requires
        collapse_ws(outside_brackets(raw)).len() > 0,
        0 <= i < pretty(raw).len(),
    ensures
        bracket_free(pretty(raw)[i]),
{
    let o = outside_brackets(raw);
    lemma_outside_has_no_brackets(raw);
    lemma_words_bracket_free(o);
    lemma_join_bracket_free(words(o), seq![' ']);
}

proof fn lemma_outside_of_bare(s: Seq<char>)
    requires
        forall|k: int| 0 <= k < s.len() ==> bracket_free(#[trigger] s[k]),
    ensures
        bracket_depth(s) == 0,
        outside_brackets(s) == s,
    decreases s.len(),
{
    if s.len() > 0 {
        lemma_outside_of_bare(s.drop_last());
        assert(bracket_free(s[s.len() - 1]));
        assert(s.drop_last().push(s.last()) =~= s);
    }
}

/// A title without brackets is only re-spaced: its words, single-spaced
/// (and, if it has none, the title trimmed).
pub proof fn lemma_bare_title_is_respaced(raw: Seq<char>)
    requires
        forall|k: int| 0 <= k < raw.len() ==> bracket_free(#[trigger] raw[k]),
    ensures
        pretty(raw) == if collapse_ws(raw).len() == 0 {
            trim(raw)
        } else {
            collapse_ws(raw)
        },
{
    lemma_outside_of_bare(raw);
}

/// After a prefix that closes every bracket it opens, the rest is read as
/// if on its own.
proof fn lemma_outside_after_closed(p: Seq<char>, q: Seq<char>)
    requires
        bracket_depth(p) == 0,
    ensures
        bracket_depth(p + q) == bracket_depth(q),
        outside_brackets(p + q) == outside_brackets(p) + outside_brackets(q),
    decreases q.len(),
{
    if q.len() == 0 {
        assert(p + q =~= p);
        assert(outside_brackets(p) + outside_brackets(q) =~= outside_brackets(p));
    } else {
        let q2 = q.drop_last();
        lemma_outside_after_closed(p, q2);
        assert((p + q).drop_last() =~= p + q2);
        assert((p + q).last() == q.last());
        assert((outside_brackets(p) + outside_brackets(q2)).push(q.last()) =~= outside_brackets(p)
            + outside_brackets(q2).push(q.last()));
    }
}

/// What a prefix keeps outside brackets is a prefix of what the whole keeps,
/// so it is whitespace when that is.
proof fn lemma_outside_prefix_ws(s: Seq<char>, k: int)
    requires
        0 <= k <= s.len(),
        forall|i: int|
            0 <= i < outside_brackets(s).len() ==> is_ws(#[trigger] outside_brackets(s)[i]),
    ensures
        forall|i: int|
            0 <= i < outside_brackets(s.take(k)).len() ==> is_ws(
                #[trigger] outside_brackets(s.take(k))[i],
            ),
    decreases s.len(),
{
    if k == s.len() {
        assert(s.take(k) =~= s);
    } else {
        let t = s.drop_last();
        let ot = outside_brackets(t);
        assert forall|i: int| 0 <= i < ot.len() implies is_ws(#[trigger] ot[i]) by {
            assert(outside_brackets(s)[i] == ot[i]);
        }
        assert(s.take(k) =~= t.take(k));
        lemma_outside_prefix_ws(t, k);
    }
}

/// Cleaning a cleaned title changes nothing.
pub proof fn lemma_pretty_title_idempotent(raw: Seq<char>)
    ensures
        pretty(pretty(raw)) == pretty(raw),
{
    let o = outside_brackets(raw);
    let c = collapse_ws(o);
    if c.len() > 0 {
        assert forall|k: int| 0 <= k < c.len() implies bracket_free(#[trigger] c[k]) by {
            lemma_pretty_title_has_no_brackets(raw, k);
        }
        lemma_outside_of_bare(c);
        lemma_collapse_ws_idempotent(o);
    } else {
        let m = trim(raw);
        let r = lemma_trim_split(raw);
        let l = raw.take(r.0);
        let rest = raw.skip(r.0);
        assert forall|k: int| 0 <= k < l.len() implies bracket_free(#[trigger] l[k]) by {
            assert(l[k] == raw[k]);
            assert(is_ws(raw[k]));
        }
        lemma_outside_of_bare(l);
        assert(raw =~= l + rest);
        lemma_outside_after_closed(l, rest);
        lemma_collapse_ws_empty(o);
        let orest = outside_brackets(rest);
        assert forall|i: int| 0 <= i < orest.len() implies is_ws(#[trigger] orest[i]) by {
            assert(o[l.len() + i] == orest[i]);
        }
        assert(m =~= rest.take(r.1 - r.0));
        lemma_outside_prefix_ws(rest, r.1 - r.0);
        lemma_collapse_ws_empty(outside_brackets(m));
        lemma_trim_idempotent(raw);
    }
}

proof fn lemma_outside_has_no_brackets(s: Seq<char>)
    ensures
        forall|k: int|
            0 <= k < outside_brackets(s).len() ==> bracket_free(#[trigger] outside_brackets(s)[k]),
    decreases s.len(),
{
    if s.len() > 0 {
        let t = s.drop_last();
        lemma_outside_has_no_brackets(t);
        let o = outside_brackets(t);
        let c = s.last();
        if bracket_free(c) && bracket_depth(t) == 0 {
            assert forall|k: int| 0 <= k < outside_brackets(s).len() implies bracket_free(
                #[trigger] outside_brackets(s)[k],
            ) by {
                if k < o.len() {
                    assert(outside_brackets(s)[k] == o[k]);
                }
            }
        }
    }
}

proof fn lemma_words_bracket_free(s: Seq<char>)
    requires
        forall|k: int| 0 <= k < s.len() ==> bracket_free(#[trigger] s[k]),
    ensures
        forall|w: int, k: int|
            0 <= w < words(s).len() && 0 <= k < words(s)[w].len() ==> bracket_free(
                #[trigger] words(s)[w][k],
            ),
    decreases s.len(),
{
    if s.len() > 0 {
        let t = s.drop_last();
        assert forall|k: int| 0 <= k < t.len() implies bracket_free(#[trigger] t[k]) by {
            assert(t[k] == s[k]);
        }
        lemma_words_bracket_free(t);
        let c = s.last();
        assert(bracket_free(s[s.len() - 1]));
        let ws = words(t);
        if !crate::text::is_ws(c) {
            if s.len() >= 2 && !crate::text::is_ws(s[s.len() - 2]) {
                assert(t.last() == s[s.len() - 2]);
                crate::text::lemma_words_nonempty(t);
                let u = ws.update(ws.len() - 1, ws.last().push(c));
                assert forall|w: int, k: int|
                    0 <= w < u.len() && 0 <= k < u[w].len() implies bracket_free(
                    #[trigger] u[w][k],
                ) by {
                    if w == ws.len() - 1 && k == ws.last().len() {
                        assert(u[w][k] == c);
                    } else if w == ws.len() - 1 {
                        assert(u[w][k] == ws[w][k]);
                    } else {
                        assert(u[w] == ws[w]);
                    }
                }
            } else {
                let u = ws.push(seq![c]);
                assert forall|w: int, k: int|
                    0 <= w < u.len() && 0 <= k < u[w].len() implies bracket_free(
                    #[trigger] u[w][k],
                ) by {
                    if w < ws.len() {
                        assert(u[w] == ws[w]);
                    } else {
                        assert(u[w][k] == c);
                    }
                }
            }
        }
    }
}

proof fn lemma_join_bracket_free(ws: Seq<Seq<char>>, sep: Seq<char>)
    requires
        forall|w: int, k: int|
            0 <= w < ws.len() && 0 <= k < ws[w].len() ==> bracket_free(#[trigger] ws[w][k]),
        forall|k: int| 0 <= k < sep.len() ==> bracket_free(#[trigger] sep[k]),
    ensures
        forall|k: int| 0 <= k < join(ws, sep).len() ==> bracket_free(#[trigger] join(ws, sep)[k]),
    decreases ws.len(),
{
    if ws.len() == 1 {
        assert forall|k: int| 0 <= k < join(ws, sep).len() implies bracket_free(
            #[trigger] join(ws, sep)[k],
        ) by {
            assert(join(ws, sep)[k] == ws[0][k]);
        }
    } else if ws.len() > 1 {
        let d = ws.drop_last();
        assert forall|w: int, k: int|
            0 <= w < d.len() && 0 <= k < d[w].len() implies bracket_free(#[trigger] d[w][k]) by {
            assert(d[w] == ws[w]);
        }
        lemma_join_bracket_free(d, sep);
        let a = join(d, sep);
        assert forall|k: int| 0 <= k < join(ws, sep).len() implies bracket_free(
            #[trigger] join(ws, sep)[k],
        ) by {
            if k < a.len() {
                assert(join(ws, sep)[k] == a[k]);
            } else if k < a.len() + sep.len() {
                assert(join(ws, sep)[k] == sep[k - a.len()]);
            } else {
                assert(join(ws, sep)[k] == ws[ws.len() - 1][k - a.len() - sep.len()]);
            }
        }
    }
}

/// The listing card of a gallery list item: the id in decimal, the cleaned
/// best title and the thumbnail URL.
pub open spec fn is_card_of(card: MangaSimple, item: V2GalleryListItem) -> bool {
    &&& card.id@ == dec(item.id as nat)
    &&& card.title@ == pretty(
        first_title(seq![opt_string(item.english_title), opt_string(item.japanese_title)]),
    )
    &&& card.cover_url@ == image_url(item.thumbnail@, true)
    &&& card.description is None
}

/// The listing cards of gallery list items, in order.
pub fn map_galleries(items: Vec<V2GalleryListItem>) -> (r: Vec<MangaSimple>)
    ensures
        r@.len() == items@.len(),
        forall|i: int| 0 <= i < items@.len() ==> is_card_of(#[trigger] r@[i], items@[i]),
{
    let mut r: Vec<MangaSimple> = Vec::new();
    let mut i: usize = 0;
    while i < items.len()
        invariant
            i <= items@.len(),
            r@.len() == i,
            forall|k: int| 0 <= k < i ==> is_card_of(#[trigger] r@[k], items@[k]),
        decreases items@.len() - i,
    {
        let g = &items[i];
        let best = g.best_title();
        r.push(
            MangaSimple {
                id: dec_string(g.id as u64),
                title: pretty_title(best.as_str()),
                cover_url: build_image_url(g.thumbnail.as_str(), true),
                description: None,
            },
        );
        i += 1;
    }
    r
}

/// The heading of a tag group: `category` reads `Type`, `character` reads
/// `Character`, anything else is capitalised.
pub open spec fn tag_type_label(tag_type: Seq<char>) -> Seq<char> {
    if tag_type == "category"@ {
        "Type"@
    } else if tag_type == "character"@ {
        "Character"@
    } else if tag_type.len() == 0 {
        Seq::empty()
    } else {
        char_upper(tag_type[0]) + tag_type.drop_first()
    }
}

/// The display heading of a tag type.
pub fn format_tag_type(tag_type: &str) -> (r: String)
    ensures
        r@ == tag_type_label(tag_type@),
{
    if str_eq(tag_type, "category") {
        owned("Type")
    } else if str_eq(tag_type, "character") {
        owned("Character")
    } else {
        let cs = chars_of(tag_type);
        if cs.len() == 0 {
            assert(cs@ =~= Seq::<char>::empty());
            String::new()
        } else {
            let first = upper_char(cs[0]);
            let mut v = chars_of(first.as_str());
            let mut k: usize = 1;
            while k < cs.len()
                invariant
                    1 <= k <= cs@.len(),
                    v@ == char_upper(cs@[0]) + cs@.subrange(1, k as int),
                decreases cs@.len() - k,
            {
                v.push(cs[k]);
                k += 1;
                assert(cs@.subrange(1, k as int) == cs@.subrange(1, k - 1).push(cs@[k - 1]));
            }
            assert(cs@.subrange(1, cs@.len() as int) =~= cs@.drop_first());
            string_of(&v)
        }
    }
}

/// Sort rank of a tag type on a detail page.
pub open spec fn priority(tag_type: Seq<char>) -> u8 {
    if tag_type == "category"@ {
        1
    } else if tag_type == "language"@ {
        2
    } else if tag_type == "parody"@ {
        3
    } else if tag_type == "character"@ {
        4
    } else if tag_type == "tag"@ {
        5
    } else {
        6
    }
}

/// Where tags of a type sort on a detail page: category, language, parody,
/// character, plain tags, then everything else.
pub fn tag_priority(tag_type: &str) -> (r: u8)
    ensures
        r == priority(tag_type@),
{
    if str_eq(tag_type, "category") {
        1
    } else if str_eq(tag_type, "language") {
        2
    } else if str_eq(tag_type, "parody") {
        3
    } else if str_eq(tag_type, "character") {
        4
    } else if str_eq(tag_type, "tag") {
        5
    } else {
        6
    }
}

/// A plain tag shows its name; any other type shows `Heading: name`.
pub open spec fn tag_label(tag_type: Seq<char>, name: Seq<char>) -> Seq<char> {
    if tag_type == "tag"@ {
        name
    } else {
        tag_type_label(tag_type) + ": "@ + name
    }
}

/// The label of a tag chip.
pub fn format_tag_label(tag_type: &str, name: &str) -> (r: String)
    ensures
        r@ == tag_label(tag_type@, name@),
{
    if str_eq(tag_type, "tag") {
        return owned(name);
    }
    let prefix = format_tag_type(tag_type);
    let mut v = chars_of(prefix.as_str());
    push_str(&mut v, ": ");
    push_str(&mut v, name);
    string_of(&v)
}

} // verus!
