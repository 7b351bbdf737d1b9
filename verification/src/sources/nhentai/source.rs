//! The nhentai source's decisions: section sorts, the search query, request
//! URLs and budgets, the tag filter, and reading a gallery's details into a
//! manga, its chapter and its pages.
use vstd::prelude::*;
use crate::model::{
    Chapter, Filter, FilterKind, HomepageSection, Manga, MangaPage, Page, RateLimit, SectionLayout,
    SelectOption, Setting, SettingKind, SourceError, SourceInfo, SourceMethod, Status, Tag,
    choice_filter, filters_view, info_view, is_parse_error, option_list, section_head, setting,
    setting_view, source_info, tag_pairs, text_filter,
};
use crate::sources::nhentai::api::{
    EndpointClass, GalleryTag, V2GalleryDetailResponse, V2GalleryListItem, V2SearchResponse, V2TagEntry,
    first_title,
};
use crate::sources::nhentai::util::{
    build_image_url, endpoint_limit, format_tag_label, image_url, is_card_of, map_galleries,
    priority, tag_label, tag_priority,
};
use crate::text::{
    chars_of, dec, dec_chars, dec_string, lex_less, lex_lt, lemma_lex_asymmetric,
    lemma_lex_total, lemma_lex_transitive, opt_string, owned, push_all,
    contains, matches_at, push_str, str_eq, string_of, strings_view, trim, trim_chars,
};

verus! {

/// nhentai's declaration: `net.nhentai.v2`, reaching the site and its API.
pub fn info() -> (r: SourceInfo)
    ensures
        info_view(r) == (
            "net.nhentai.v2"@,
            "nHentai (V2)"@,
            "2.0"@,
            "multi"@,
            "https://nhentai.net"@,
            seq!["nhentai.net"@, "api.nhentai.net"@],
            true,
        ),
{
    let hosts = vec!["nhentai.net", "api.nhentai.net"];
    let r = source_info("net.nhentai.v2", "nHentai (V2)", "2.0", "multi", "https://nhentai.net", hosts, true);
    assert(hosts@.map_values(|h: &str| h@) =~= seq!["nhentai.net"@, "api.nhentai.net"@]);
    r
}

/// The v2 API root.
pub const API_URL: &'static str = "https://nhentai.net/api/v2";

// ---------------------------------------------------------------------------
// Sections and listings
// ---------------------------------------------------------------------------

/// The search sort a homepage section lists by.
pub open spec fn section_sort_of(section_id: Seq<char>) -> Option<Seq<char>> {
    if section_id == "latest"@ {
        Some("date"@)
    } else if section_id == "popular_today"@ {
        Some("popular-today"@)
    } else if section_id == "popular_week"@ {
        Some("popular-week"@)
    } else if section_id == "popular_month"@ {
        Some("popular-month"@)
    } else if section_id == "popular_all"@ {
        Some("popular"@)
    } else {
        None
    }
}

/// The sort of a section, or a parse error for an unknown one.
pub fn section_sort(section_id: &str) -> (r: Result<&'static str, SourceError>)
    ensures
        match section_sort_of(section_id@) {
            Some(s) => r matches Ok(v) && v@ == s,
            None => r matches Err(e) && is_parse_error(e, "Unknown section ID"@),
        },
{
    if str_eq(section_id, "latest") {
        Ok("date")
    } else if str_eq(section_id, "popular_today") {
        Ok("popular-today")
    } else if str_eq(section_id, "popular_week") {
        Ok("popular-week")
    } else if str_eq(section_id, "popular_month") {
        Ok("popular-month")
    } else if str_eq(section_id, "popular_all") {
        Ok("popular")
    } else {
        Err(SourceError::Parse { message: owned("Unknown section ID") })
    }
}

/// The homepage sections, in order: id, title, layout and sort.
pub fn homepage_sections() -> (r: Vec<(&'static str, &'static str, SectionLayout, &'static str)>)
    ensures
        r@.len() == 5,
        r@[0].0@ == "latest"@ && r@[0].1@ == "Latest Updates"@ && r@[0].2 == SectionLayout::TripleRow,
        r@[1].0@ == "popular_today"@ && r@[1].1@ == "Popular Today"@,
        r@[2].0@ == "popular_week"@ && r@[2].1@ == "Popular This Week"@,
        r@[3].0@ == "popular_month"@ && r@[3].1@ == "Popular This Month"@,
        r@[4].0@ == "popular_all"@ && r@[4].1@ == "All-Time Popular"@,
        forall|i: int| 1 <= i < 5 ==> (#[trigger] r@[i]).2 == SectionLayout::SingleRow,
        forall|i: int| 0 <= i < 5 ==> section_sort_of((#[trigger] r@[i]).0@) == Some(r@[i].3@),
{
    proof {
        reveal_strlit("latest");
        reveal_strlit("popular_today");
        reveal_strlit("popular_week");
        reveal_strlit("popular_month");
        reveal_strlit("popular_all");
    }
    let r = vec![
        ("latest", "Latest Updates", SectionLayout::TripleRow, "date"),
        ("popular_today", "Popular Today", SectionLayout::SingleRow, "popular-today"),
        ("popular_week", "Popular This Week", SectionLayout::SingleRow, "popular-week"),
        ("popular_month", "Popular This Month", SectionLayout::SingleRow, "popular-month"),
        ("popular_all", "All-Time Popular", SectionLayout::SingleRow, "popular"),
    ];
    assert("popular_today"@[0] != "latest"@[0]);
    assert("popular_week"@[8] != "popular_today"@[8]);
    assert("popular_month"@[8] != "popular_today"@[8]);
    assert("popular_month"@[8] != "popular_week"@[8]);
    assert("popular_all"@[8] != "popular_today"@[8]);
    assert("popular_all"@[8] != "popular_week"@[8]);
    assert("popular_all"@[8] != "popular_month"@[8]);
    assert(section_sort_of(r@[0].0@) == Some(r@[0].3@));
    assert(section_sort_of(r@[1].0@) == Some(r@[1].3@));
    assert(section_sort_of(r@[2].0@) == Some(r@[2].3@));
    assert(section_sort_of(r@[3].0@) == Some(r@[3].3@));
    assert(section_sort_of(r@[4].0@) == Some(r@[4].3@));
    r
}

/// The query a listing runs: the encoded global query, or `*` when that is
/// blank.
pub fn base_query(encoded: &str) -> (r: String)
    ensures
        r@ == if trim(encoded@).len() == 0 {
            "*"@
        } else {
            encoded@
        },
{
    let v = chars_of(encoded);
    let t = trim_chars(&v);
    if t.len() == 0 {
        owned("*")
    } else {
        owned(encoded)
    }
}

/// The search URL of a listing sorted by `sort`; with a page number for a
/// section page, without one for a homepage row.
pub open spec fn listing_url_of(query: Seq<char>, sort: Seq<char>, page: Option<u32>) -> Seq<char> {
    API_URL@ + "/search?query="@ + query + "&sort="@ + sort + match page {
        Some(p) => "&page="@ + dec(p as nat),
        None => Seq::empty(),
    }
}

/// The search URL of a listing.
pub fn listing_url(query: &str, sort: &str, page: Option<u32>) -> (r: String)
    ensures
        r@ == listing_url_of(query@, sort@, page),
{
    let mut v = chars_of(API_URL);
    push_str(&mut v, "/search?query=");
    push_str(&mut v, query);
    push_str(&mut v, "&sort=");
    push_str(&mut v, sort);
    if let Some(p) = page {
        push_str(&mut v, "&page=");
        let d = dec_chars(p as u64);
        push_all(&mut v, &d);
    }
    string_of(&v)
}

/// The search URL of a query's results page.
pub fn search_url(encoded_query: &str, page: u32) -> (r: String)
    ensures
        r@ == API_URL@ + "/search?query="@ + encoded_query@ + "&page="@ + dec(page as nat),
{
    let mut v = chars_of(API_URL);
    push_str(&mut v, "/search?query=");
    push_str(&mut v, encoded_query);
    push_str(&mut v, "&page=");
    let d = dec_chars(page as u64);
    push_all(&mut v, &d);
    string_of(&v)
}

/// A page of results: the cards of the galleries returned (none when the
/// answer has no list), and a next page while `page` is before the last.
pub fn result_page(page: u32, response: V2SearchResponse) -> (r: MangaPage)
    ensures
        r.has_next == (page < response.num_pages),
        match response.result {
            Some(items) => r.items@.len() == items@.len() && forall|i: int|
                0 <= i < items@.len() ==> is_card_of(#[trigger] r.items@[i], items@[i]),
            None => r.items@.len() == 0,
        },
{
    let items = match response.result {
        Some(items) => map_galleries(items),
        None => Vec::new(),
    };
    MangaPage { has_next: page < response.num_pages, items }
}

// ---------------------------------------------------------------------------
// Budgets
// ---------------------------------------------------------------------------

/// Calls of the search endpoint one homepage load makes (one per row).
pub open spec fn homepage_searches() -> nat {
    5
}

/// The per-minute budget of a host method, with an API key or without:
/// each endpoint's ceiling is split across the methods that spend it and
/// divided by the calls each makes. `chapters` makes no request and has
/// none.
pub open spec fn method_budget(method: SourceMethod, keyed: bool) -> Option<u32> {
    match method {
        SourceMethod::Homepage => Some(if keyed { 2u32 } else { 1u32 }),
        SourceMethod::Search => Some(if keyed { 6u32 } else { 3u32 }),
        SourceMethod::Section => Some(if keyed { 4u32 } else { 2u32 }),
        SourceMethod::Manga => Some(if keyed { 22u32 } else { 10u32 }),
        SourceMethod::Pages => Some(if keyed { 22u32 } else { 10u32 }),
        SourceMethod::Chapters => None,
    }
}

/// The rate limits of the methods that make requests, with or without an
/// API key.
pub fn rate_limits(keyed: bool) -> (r: Vec<RateLimit>)
    ensures
        r@.len() == 5,
        r@[0].method == SourceMethod::Homepage,
        r@[1].method == SourceMethod::Search,
        r@[2].method == SourceMethod::Section,
        r@[3].method == SourceMethod::Manga,
        r@[4].method == SourceMethod::Pages,
        forall|i: int|
            0 <= i < 5 ==> method_budget((#[trigger] r@[i]).method, keyed) == Some(
                r@[i].per_minute,
            ),
{
    let (homepage, search, section, gallery): (u32, u32, u32, u32) = if keyed {
        (2, 6, 4, 22)
    } else {
        (1, 3, 2, 10)
    };
    vec![
        RateLimit { method: SourceMethod::Homepage, per_minute: homepage },
        RateLimit { method: SourceMethod::Search, per_minute: search },
        RateLimit { method: SourceMethod::Section, per_minute: section },
        RateLimit { method: SourceMethod::Manga, per_minute: gallery },
        RateLimit { method: SourceMethod::Pages, per_minute: gallery },
    ]
}

/// The methods that spend the search endpoint, at their full budgets and
/// with a homepage load costing one search per row, never exceed the
/// endpoint's ceiling, with or without a key.
pub proof fn lemma_search_budgets_fit(keyed: bool)
    ensures
        method_budget(SourceMethod::Homepage, keyed).unwrap() * homepage_searches()
            + method_budget(SourceMethod::Search, keyed).unwrap() + method_budget(
            SourceMethod::Section,
            keyed,
        ).unwrap() <= endpoint_limit(EndpointClass::Search, keyed),
{
}

/// The methods that spend the gallery endpoint (one call each) never exceed
/// its ceiling, with or without a key.
pub proof fn lemma_gallery_budgets_fit(keyed: bool)
    ensures
        method_budget(SourceMethod::Manga, keyed).unwrap() + method_budget(
            SourceMethod::Pages,
            keyed,
        ).unwrap() <= endpoint_limit(EndpointClass::GalleryDetail, keyed),
{
}

/// A key only ever widens a method's budget.
pub proof fn lemma_key_only_widens(method: SourceMethod)
    ensures
        match (method_budget(method, false), method_budget(method, true)) {
            (Some(anon), Some(keyed)) => anon <= keyed,
            (None, None) => true,
            _ => false,
        },
{
}

/// The `Authorization` header value for an API key, when one is set.
pub fn auth_header(api_key: &str) -> (r: Option<String>)
    ensures
        match r {
            Some(h) => api_key@.len() > 0 && h@ == "Key "@ + api_key@,
            None => api_key@.len() == 0,
        },
{
    if api_key.is_empty() {
        None
    } else {
        let mut v = chars_of("Key ");
        push_str(&mut v, api_key);
        Some(string_of(&v))
    }
}

// ---------------------------------------------------------------------------
// The tag filter
// ---------------------------------------------------------------------------

/// Each name sorts strictly before the ones after it.
pub open spec fn names_ascending(s: Seq<Seq<char>>) -> bool {
    forall|i: int, j: int| 0 <= i < j < s.len() ==> lex_lt(s[i], s[j])
}

/// The names of tag list entries.
pub open spec fn entry_names(s: Seq<V2TagEntry>) -> Seq<Seq<char>> {
    s.map_values(|t: V2TagEntry| t.name@)
}

/// The names of options.
pub open spec fn option_ids(s: Seq<SelectOption>) -> Seq<Seq<char>> {
    s.map_values(|o: SelectOption| o.id@)
}

fn insert_name(v: &mut Vec<String>, x: &String)
    requires
        names_ascending(strings_view(old(v)@)),
    ensures
        names_ascending(strings_view(final(v)@)),
        forall|y: Seq<char>|
            #![trigger strings_view(final(v)@).contains(y)]
            strings_view(final(v)@).contains(y) <==> (strings_view(old(v)@).contains(y) || y
                == x@),
{
    let ghost before = strings_view(v@);
    let xv = chars_of(x.as_str());
    let mut p: usize = 0;
    while p < v.len() && lex_less(&chars_of(v[p].as_str()), &xv)
        invariant
            p <= v@.len(),
            before == strings_view(v@),
            xv@ == x@,
            forall|q: int| 0 <= q < p ==> lex_lt(#[trigger] before[q], x@),
        decreases v@.len() - p,
    {
        p += 1;
    }
    if p < v.len() && str_eq(v[p].as_str(), x.as_str()) {
        assert(before[p as int] == x@);
        assert forall|y: Seq<char>| before.contains(y) <==> (before.contains(y) || y == x@) by {
            if y == x@ {
                assert(before[p as int] == y);
            }
        }
        return;
    }
    proof {
        if p < before.len() {
            lemma_lex_total(before[p as int], x@);
            assert(lex_lt(x@, before[p as int]));
            assert forall|q: int| p <= q < before.len() implies lex_lt(x@, #[trigger] before[q]) by {
                if q > p {
                    lemma_lex_transitive(x@, before[p as int], before[q]);
                }
            }
        }
    }
    v.insert(p, x.clone());
    let ghost after = strings_view(v@);
    assert(after =~= before.insert(p as int, x@));
    assert forall|i: int, j: int| 0 <= i < j < after.len() implies lex_lt(after[i], after[j]) by {
        if j < p {
        } else if i < p && j == p {
        } else if i < p && j > p {
            assert(after[j] == before[j - 1]);
        } else if i == p {
            assert(after[j] == before[j - 1]);
        } else {
            assert(after[i] == before[i - 1] && after[j] == before[j - 1]);
        }
    }
    assert forall|y: Seq<char>| after.contains(y) <==> (before.contains(y) || y == x@) by {
        if after.contains(y) {
            let k = choose|k: int| 0 <= k < after.len() && after[k] == y;
            if k < p {
                assert(before[k] == y);
            } else if k > p {
                assert(before[k - 1] == y);
            }
        }
        if before.contains(y) {
            let k = choose|k: int| 0 <= k < before.len() && before[k] == y;
            if k < p {
                assert(after[k] == y);
            } else {
                assert(after[k + 1] == y);
            }
        }
        if y == x@ {
            assert(after[p as int] == y);
        }
    }
}

/// The options of the tag filter: every tag name once, in name order, as
/// both id and label.
pub fn tag_filter_options(tags: Vec<V2TagEntry>) -> (r: Vec<SelectOption>)
    ensures
        forall|i: int| 0 <= i < r@.len() ==> (#[trigger] r@[i]).id@ == r@[i].label@,
        names_ascending(option_ids(r@)),
        forall|x: Seq<char>|
            #![trigger option_ids(r@).contains(x)]
            option_ids(r@).contains(x) <==> entry_names(tags@).contains(x),
{
    let ghost all = entry_names(tags@);
    let mut names: Vec<String> = Vec::new();
    let mut i: usize = 0;
    while i < tags.len()
        invariant
            i <= tags@.len(),
            all == entry_names(tags@),
            names_ascending(strings_view(names@)),
            forall|y: Seq<char>|
                #![trigger strings_view(names@).contains(y)]
                strings_view(names@).contains(y) <==> all.take(i as int).contains(y),
        decreases tags@.len() - i,
    {
        let ghost pre = all.take(i as int);
        let ghost next = all.take(i + 1);
        let name = &tags[i].name;
        assert(all[i as int] == name@);
        assert forall|y: Seq<char>| next.contains(y) <==> (pre.contains(y) || y == name@) by {
            if next.contains(y) {
                let k = choose|k: int| 0 <= k < next.len() && next[k] == y;
                if k < i {
                    assert(pre[k] == y);
                }
            }
            if pre.contains(y) {
                let k = choose|k: int| 0 <= k < pre.len() && pre[k] == y;
                assert(next[k] == y);
            }
            if y == name@ {
                assert(next[i as int] == y);
            }
        }
        insert_name(&mut names, name);
        i += 1;
    }
    assert(all.take(tags@.len() as int) =~= all);
    let mut out: Vec<SelectOption> = Vec::new();
    let mut k: usize = 0;
    while k < names.len()
        invariant
            k <= names@.len(),
            option_ids(out@) == strings_view(names@).take(k as int),
            forall|q: int| 0 <= q < out@.len() ==> (#[trigger] out@[q]).id@ == out@[q].label@,
        decreases names@.len() - k,
    {
        let n = &names[k];
        let ghost before = out@;
        out.push(SelectOption { id: n.clone(), label: n.clone() });
        assert(option_ids(out@) =~= option_ids(before).push(n@));
        assert(strings_view(names@).take(k + 1) =~= strings_view(names@).take(k as int).push(n@));
        k += 1;
    }
    assert(strings_view(names@).take(names@.len() as int) =~= strings_view(names@));
    out
}

// ---------------------------------------------------------------------------
// The search query
// ---------------------------------------------------------------------------

/// The text filters a search reads, in the order their terms are added: the
/// first four take quoted values.
pub open spec fn search_text_filter(k: int) -> Seq<char> {
    if k == 0 {
        "artist"@
    } else if k == 1 {
        "group"@
    } else if k == 2 {
        "parody"@
    } else if k == 3 {
        "character"@
    } else if k == 4 {
        "pages"@
    } else if k == 5 {
        "favorites"@
    } else {
        "uploaded"@
    }
}

/// The ids of the text filters a search reads.
pub fn search_text_filters() -> (r: Vec<&'static str>)
    ensures
        r@.len() == 7,
        forall|k: int| 0 <= k < 7 ==> (#[trigger] r@[k])@ == search_text_filter(k),
{
    let r = vec!["artist", "group", "parody", "character", "pages", "favorites", "uploaded"];
    assert(r@[0]@ == search_text_filter(0));
    assert(r@[1]@ == search_text_filter(1));
    assert(r@[2]@ == search_text_filter(2));
    assert(r@[3]@ == search_text_filter(3));
    assert(r@[4]@ == search_text_filter(4));
    assert(r@[5]@ == search_text_filter(5));
    assert(r@[6]@ == search_text_filter(6));
    r
}

/// Each tag as a quoted term, prefixed with `sign` (`-` excludes).
pub open spec fn quoted_tags(tags: Seq<Seq<char>>, sign: Seq<char>) -> Seq<char>
    decreases tags.len(),
{
    if tags.len() == 0 {
        Seq::empty()
    } else {
        quoted_tags(tags.drop_last(), sign) + " "@ + sign + "\""@ + tags.last() + "\""@
    }
}

/// The term of the `k`-th text filter: `id:"value"` for the first four,
/// `id:value` for the rest; none when the value is missing or empty.
pub open spec fn filter_term(k: int, value: Option<Seq<char>>) -> Seq<char> {
    match value {
        Some(v) => if v.len() > 0 {
            " "@ + search_text_filter(k) + ":"@ + (if k < 4 {
                "\""@ + v + "\""@
            } else {
                v
            })
        } else {
            Seq::empty()
        },
        None => Seq::empty(),
    }
}

/// The terms of the text filters, in order.
pub open spec fn text_terms(values: Seq<Option<Seq<char>>>) -> Seq<char>
    decreases values.len(),
{
    if values.len() == 0 {
        Seq::empty()
    } else {
        text_terms(values.drop_last()) + filter_term(values.len() - 1, values.last())
    }
}

/// The values of the text filters.
pub open spec fn values_view(v: Seq<Option<String>>) -> Seq<Option<Seq<char>>> {
    v.map_values(|o: Option<String>| opt_string(o))
}

/// A search's query before the language preference: the term, the
/// included tags quoted, the excluded tags quoted and negated, then the
/// text filters.
pub open spec fn search_query_of(
    term: Seq<char>,
    included: Seq<Seq<char>>,
    excluded: Seq<Seq<char>>,
    values: Seq<Option<Seq<char>>>,
) -> Seq<char> {
    term + quoted_tags(included, Seq::empty()) + quoted_tags(excluded, "-"@) + text_terms(values)
}

fn push_quoted(v: &mut Vec<char>, tags: &Vec<String>, sign: &str)
    ensures
        final(v)@ == old(v)@ + quoted_tags(strings_view(tags@), sign@),
{
    let ghost start = v@;
    let ghost tv = strings_view(tags@);
    let mut i: usize = 0;
    while i < tags.len()
        invariant
            i <= tags@.len(),
            tv == strings_view(tags@),
            v@ == start + quoted_tags(tv.take(i as int), sign@),
        decreases tags@.len() - i,
    {
        assert(tv.take(i + 1).drop_last() =~= tv.take(i as int));
        assert(tv.take(i + 1).last() == tags@[i as int]@);
        push_str(v, " ");
        push_str(v, sign);
        push_str(v, "\"");
        push_str(v, tags[i].as_str());
        push_str(v, "\"");
        i += 1;
    }
    assert(tv.take(tags@.len() as int) =~= tv);
}

/// The query a search runs before the language preference is added;
/// `text_values` holds the values of the filters `search_text_filters`
/// names, in that order.
pub fn search_query(
    term: &str,
    included: &Vec<String>,
    excluded: &Vec<String>,
    text_values: &Vec<Option<String>>,
) -> (r: String)
    requires
        text_values@.len() == 7,
    ensures
        r@ == search_query_of(
            term@,
            strings_view(included@),
            strings_view(excluded@),
            values_view(text_values@),
        ),
{
    let mut v = chars_of(term);
    proof {
        reveal_strlit("");
        assert(""@ =~= Seq::<char>::empty());
    }
    push_quoted(&mut v, included, "");
    push_quoted(&mut v, excluded, "-");
    let ids = search_text_filters();
    let ghost vals = values_view(text_values@);
    let ghost head = v@;
    let mut k: usize = 0;
    while k < 7
        invariant
            k <= 7,
            text_values@.len() == 7,
            ids@.len() == 7,
            forall|q: int| 0 <= q < 7 ==> (#[trigger] ids@[q])@ == search_text_filter(q),
            vals == values_view(text_values@),
            v@ == head + text_terms(vals.take(k as int)),
        decreases 7 - k,
    {
        assert(vals.take(k + 1).drop_last() =~= vals.take(k as int));
        assert(vals.take(k + 1).last() == opt_string(text_values@[k as int]));
        if let Some(value) = &text_values[k] {
            if !value.as_str().is_empty() {
                push_str(&mut v, " ");
                push_str(&mut v, ids[k]);
                push_str(&mut v, ":");
                if k < 4 {
                    push_str(&mut v, "\"");
                    push_str(&mut v, value.as_str());
                    push_str(&mut v, "\"");
                } else {
                    push_str(&mut v, value.as_str());
                }
            }
        }
        k += 1;
    }
    assert(vals.take(7) =~= vals);
    string_of(&v)
}

// ---------------------------------------------------------------------------
// Gallery details
// ---------------------------------------------------------------------------

/// A gallery tag as `(id, type, name)`.
pub open spec fn gallery_tag_view(t: GalleryTag) -> (u32, Seq<char>, Seq<char>) {
    (t.id, t.tag_type@, t.name@)
}

/// The views of gallery tags.
pub open spec fn gallery_tags_view(s: Seq<GalleryTag>) -> Seq<(u32, Seq<char>, Seq<char>)> {
    s.map_values(|t: GalleryTag| gallery_tag_view(t))
}

/// Artist and group tags name the people behind a gallery.
pub open spec fn is_credit(tag_type: Seq<char>) -> bool {
    tag_type == "artist"@ || tag_type == "group"@
}

/// The names of the credit tags, in order.
pub open spec fn credits(s: Seq<(u32, Seq<char>, Seq<char>)>) -> Seq<Seq<char>>
    decreases s.len(),
{
    if s.len() == 0 {
        Seq::empty()
    } else if is_credit(s.last().1) {
        credits(s.drop_last()).push(s.last().2)
    } else {
        credits(s.drop_last())
    }
}

/// `a` sorts strictly before `b` by (type priority, name).
pub open spec fn key_before(a: (u32, Seq<char>, Seq<char>), b: (u32, Seq<char>, Seq<char>)) -> bool {
    priority(a.1) < priority(b.1) || (priority(a.1) == priority(b.1) && lex_lt(a.2, b.2))
}

/// `t` placed before the first entry it sorts strictly before.
pub open spec fn insert_by_key(
    s: Seq<(u32, Seq<char>, Seq<char>)>,
    t: (u32, Seq<char>, Seq<char>),
) -> Seq<(u32, Seq<char>, Seq<char>)>
    decreases s.len(),
{
    if s.len() == 0 {
        seq![t]
    } else if key_before(t, s[0]) {
        seq![t] + s
    } else {
        seq![s[0]] + insert_by_key(s.drop_first(), t)
    }
}

/// The tags sorted by (type priority, name), equal keys keeping their order
/// (a stable sort).
pub open spec fn sort_by_key(s: Seq<(u32, Seq<char>, Seq<char>)>) -> Seq<(u32, Seq<char>, Seq<char>)>
    decreases s.len(),
{
    if s.len() == 0 {
        s
    } else {
        insert_by_key(sort_by_key(s.drop_last()), s.last())
    }
}

/// The chips of the tags that are not credits, in order: the id in decimal
/// and the label.
pub open spec fn shown_tags(s: Seq<(u32, Seq<char>, Seq<char>)>) -> Seq<(Seq<char>, Seq<char>)>
    decreases s.len(),
{
    if s.len() == 0 {
        Seq::empty()
    } else if is_credit(s.last().1) {
        shown_tags(s.drop_last())
    } else {
        shown_tags(s.drop_last()).push((dec(s.last().0 as nat), tag_label(s.last().1, s.last().2)))
    }
}

proof fn lemma_key_insert_at(
    s: Seq<(u32, Seq<char>, Seq<char>)>,
    t: (u32, Seq<char>, Seq<char>),
    p: int,
)
    requires
        0 <= p <= s.len(),
        forall|q: int| 0 <= q < p ==> !key_before(t, #[trigger] s[q]),
        p < s.len() ==> key_before(t, s[p]),
    ensures
        insert_by_key(s, t) == s.insert(p, t),
    decreases s.len(),
{
    if s.len() == 0 {
        assert(s.insert(p, t) =~= seq![t]);
    } else if p == 0 {
        assert(s.insert(p, t) =~= seq![t] + s);
    } else {
        let r = s.drop_first();
        assert(!key_before(t, s[0]));
        assert forall|q: int| 0 <= q < p - 1 implies !key_before(t, #[trigger] r[q]) by {
            assert(r[q] == s[q + 1]);
        }
        lemma_key_insert_at(r, t, p - 1);
        assert(s.insert(p, t) =~= seq![s[0]] + r.insert(p - 1, t));
    }
}

fn key_before_exec(a: &GalleryTag, b: &GalleryTag) -> (r: bool)
    ensures
        r == key_before(gallery_tag_view(*a), gallery_tag_view(*b)),
{
    let pa = tag_priority(a.tag_type.as_str());
    let pb = tag_priority(b.tag_type.as_str());
    if pa < pb {
        true
    } else if pa == pb {
        lex_less(&chars_of(a.name.as_str()), &chars_of(b.name.as_str()))
    } else {
        false
    }
}

fn copy_tag(t: &GalleryTag) -> (r: GalleryTag)
    ensures
        gallery_tag_view(r) == gallery_tag_view(*t),
{
    GalleryTag {
        id: t.id,
        tag_type: t.tag_type.clone(),
        name: t.name.clone(),
        url: t.url.clone(),
        count: t.count,
    }
}

fn sort_tags(tags: &Vec<GalleryTag>) -> (r: Vec<GalleryTag>)
    ensures
        gallery_tags_view(r@) == sort_by_key(gallery_tags_view(tags@)),
{
    let ghost all = gallery_tags_view(tags@);
    let mut out: Vec<GalleryTag> = Vec::new();
    let mut i: usize = 0;
    while i < tags.len()
        invariant
            i <= tags@.len(),
            all == gallery_tags_view(tags@),
            gallery_tags_view(out@) == sort_by_key(all.take(i as int)),
        decreases tags@.len() - i,
    {
        assert(all.take(i + 1).drop_last() =~= all.take(i as int));
        let t = &tags[i];
        let ghost before = gallery_tags_view(out@);
        let mut p: usize = 0;
        while p < out.len() && !key_before_exec(t, &out[p])
            invariant
                p <= out@.len(),
                before == gallery_tags_view(out@),
                forall|q: int| 0 <= q < p ==> !key_before(gallery_tag_view(*t), #[trigger] before[q]),
            decreases out@.len() - p,
        {
            p += 1;
        }
        proof {
            lemma_key_insert_at(before, gallery_tag_view(*t), p as int);
        }
        out.insert(p, copy_tag(t));
        assert(gallery_tags_view(out@) =~= before.insert(p as int, gallery_tag_view(*t)));
        i += 1;
    }
    assert(all.take(tags@.len() as int) =~= all);
    out
}

/// The manga a gallery's details describe: its best title, its non-credit
/// tags sorted by (type priority, name) as labelled chips, its cover, its
/// artist and group names as both authors and artists, its upload time and
/// its favourite count.
pub fn gallery_manga(res: V2GalleryDetailResponse) -> (r: Manga)
    ensures
        r.id@ == dec(res.id as nat),
        r.title@ == first_title(
            seq![
                opt_string(res.title.pretty),
                opt_string(res.title.english),
                opt_string(res.title.japanese),
            ],
        ),
        r.description@.len() == 0,
        tag_pairs(r.tags@) == shown_tags(sort_by_key(gallery_tags_view(res.tags@))),
        r.cover_url@ == image_url(res.cover.path@, true),
        strings_view(r.author@) == credits(gallery_tags_view(res.tags@)),
        strings_view(r.artist@) == credits(gallery_tags_view(res.tags@)),
        r.status == Status::Completed,
        r.last_updated@ == dec(res.upload_date as nat),
        r.rating is None,
        r.views == Some(res.num_favorites as u64),
{
    let ghost tv = gallery_tags_view(res.tags@);
    let mut authors: Vec<String> = Vec::new();
    let mut i: usize = 0;
    while i < res.tags.len()
        invariant
            i <= res.tags@.len(),
            tv == gallery_tags_view(res.tags@),
            strings_view(authors@) == credits(tv.take(i as int)),
        decreases res.tags@.len() - i,
    {
        assert(tv.take(i + 1).drop_last() =~= tv.take(i as int));
        let t = &res.tags[i];
        if str_eq(t.tag_type.as_str(), "artist") || str_eq(t.tag_type.as_str(), "group") {
            let ghost before = authors@;
            authors.push(t.name.clone());
            assert(strings_view(authors@) =~= strings_view(before).push(t.name@));
        }
        i += 1;
    }
    assert(tv.take(res.tags@.len() as int) =~= tv);
    let mut artists: Vec<String> = Vec::new();
    let mut k: usize = 0;
    while k < authors.len()
        invariant
            k <= authors@.len(),
            strings_view(artists@) == strings_view(authors@).take(k as int),
        decreases authors@.len() - k,
    {
        let ghost before = artists@;
        artists.push(authors[k].clone());
        assert(strings_view(artists@) =~= strings_view(before).push(authors@[k as int]@));
        assert(strings_view(authors@).take(k + 1) =~= strings_view(authors@).take(k as int).push(
            authors@[k as int]@,
        ));
        k += 1;
    }
    assert(strings_view(authors@).take(authors@.len() as int) =~= strings_view(authors@));
    let sorted = sort_tags(&res.tags);
    let ghost sv = gallery_tags_view(sorted@);
    let mut tags: Vec<Tag> = Vec::new();
    let mut m: usize = 0;
    while m < sorted.len()
        invariant
            m <= sorted@.len(),
            sv == gallery_tags_view(sorted@),
            tag_pairs(tags@) == shown_tags(sv.take(m as int)),
        decreases sorted@.len() - m,
    {
        assert(sv.take(m + 1).drop_last() =~= sv.take(m as int));
        let t = &sorted[m];
        if !(str_eq(t.tag_type.as_str(), "artist") || str_eq(t.tag_type.as_str(), "group")) {
            let ghost before = tags@;
            let id = dec_string(t.id as u64);
            let label = format_tag_label(t.tag_type.as_str(), t.name.as_str());
            tags.push(Tag { id, label });
            assert(tag_pairs(tags@) =~= tag_pairs(before).push(
                (dec(t.id as nat), tag_label(t.tag_type@, t.name@)),
            ));
        }
        m += 1;
    }
    assert(sv.take(sorted@.len() as int) =~= sv);
    Manga {
        id: dec_string(res.id as u64),
        title: res.title.best_title(),
        description: String::new(),
        tags,
        cover_url: build_image_url(res.cover.path.as_str(), true),
        author: artists,
        artist: authors,
        status: Status::Completed,
        last_updated: dec_string(res.upload_date),
        rating: None,
        views: Some(res.num_favorites as u64),
    }
}

/// A gallery is read as one chapter, `Oneshot`, linking to its page.
pub fn oneshot_chapter(manga_id: &str) -> (r: Chapter)
    ensures
        r.id@ == manga_id@,
        r.title@ == "Oneshot"@,
        r.manga_id@ == manga_id@,
        r.number@ == "1"@,
        r.language@ == "multi"@,
        r.upload_date@.len() == 0,
        r.page_count is None,
        r.scanlator is None,
        r.url@ == "https://nhentai.net/g/"@ + manga_id@ + "/"@,
        !r.is_locked,
{
    let mut url = chars_of("https://nhentai.net/g/");
    push_str(&mut url, manga_id);
    push_str(&mut url, "/");
    Chapter {
        id: owned(manga_id),
        title: owned("Oneshot"),
        manga_id: owned(manga_id),
        number: owned("1"),
        language: owned("multi"),
        upload_date: String::new(),
        page_count: None,
        scanlator: None,
        url: string_of(&url),
        is_locked: false,
    }
}

/// The pages of a gallery: each page image on the image CDN, numbered by
/// its position (as a `u32`).
pub fn gallery_pages(res: &V2GalleryDetailResponse) -> (r: Vec<Page>)
    ensures
        r@.len() == res.pages@.len(),
        forall|i: int|
            0 <= i < r@.len() ==> (#[trigger] r@[i]).number == i as u32 && r@[i].image_url@
                == image_url(res.pages@[i].path@, false),
{
    let mut pages: Vec<Page> = Vec::new();
    let mut i: usize = 0;
    while i < res.pages.len()
        invariant
            i <= res.pages@.len(),
            pages@.len() == i,
            forall|k: int|
                0 <= k < i ==> (#[trigger] pages@[k]).number == k as u32 && pages@[k].image_url@
                    == image_url(res.pages@[k].path@, false),
        decreases res.pages@.len() - i,
    {
        let number = #[verifier::truncate] (i as u32);
        pages.push(Page { number, image_url: build_image_url(res.pages[i].path.as_str(), false) });
        i += 1;
    }
    pages
}

/// No tag sorts strictly before one ahead of it.
pub open spec fn sorted_by_key(s: Seq<(u32, Seq<char>, Seq<char>)>) -> bool {
    forall|i: int, j: int| 0 <= i < j < s.len() ==> !key_before(s[j], s[i])
}

proof fn lemma_key_mixed(
    a: (u32, Seq<char>, Seq<char>),
    b: (u32, Seq<char>, Seq<char>),
    c: (u32, Seq<char>, Seq<char>),
)
    requires
        key_before(a, b),
        !key_before(c, b),
    ensures
        key_before(a, c),
{
    if priority(a.1) == priority(b.1) && priority(b.1) == priority(c.1) {
        lemma_lex_total(b.2, c.2);
        if lex_lt(b.2, c.2) {
            lemma_lex_transitive(a.2, b.2, c.2);
        }
    }
}

proof fn lemma_key_asymmetric(a: (u32, Seq<char>, Seq<char>), b: (u32, Seq<char>, Seq<char>))
    requires
        key_before(a, b),
    ensures
        !key_before(b, a),
{
    if priority(a.1) == priority(b.1) {
        lemma_lex_asymmetric(a.2, b.2);
    }
}

proof fn lemma_key_insert_pos(
    s: Seq<(u32, Seq<char>, Seq<char>)>,
    t: (u32, Seq<char>, Seq<char>),
) -> (p: int)
    ensures
        0 <= p <= s.len(),
        forall|q: int| 0 <= q < p ==> !key_before(t, #[trigger] s[q]),
        p < s.len() ==> key_before(t, s[p]),
        insert_by_key(s, t) == s.insert(p, t),
    decreases s.len(),
{
    if s.len() == 0 || key_before(t, s[0]) {
        lemma_key_insert_at(s, t, 0);
        0
    } else {
        let r = s.drop_first();
        let q = lemma_key_insert_pos(r, t);
        assert forall|k: int| 0 <= k < q + 1 implies !key_before(t, #[trigger] s[k]) by {
            if k > 0 {
                assert(s[k] == r[k - 1]);
            }
        }
        lemma_key_insert_at(s, t, q + 1);
        q + 1
    }
}

proof fn lemma_insert_key_sorted(s: Seq<(u32, Seq<char>, Seq<char>)>, t: (u32, Seq<char>, Seq<char>))
    requires
        sorted_by_key(s),
    ensures
        sorted_by_key(insert_by_key(s, t)),
{
    let p = lemma_key_insert_pos(s, t);
    let w = s.insert(p, t);
    assert forall|i: int, j: int| 0 <= i < j < w.len() implies !key_before(w[j], w[i]) by {
        if j < p {
            assert(w[i] == s[i] && w[j] == s[j]);
        } else if j == p {
            assert(w[i] == s[i]);
        } else if i == p {
            assert(w[j] == s[j - 1]);
            if j - 1 > p {
                assert(!key_before(s[j - 1], s[p]));
                lemma_key_mixed(t, s[p], s[j - 1]);
            }
            lemma_key_asymmetric(t, s[j - 1]);
        } else if i < p {
            assert(w[i] == s[i] && w[j] == s[j - 1]);
        } else {
            assert(w[i] == s[i - 1] && w[j] == s[j - 1]);
        }
    }
}

/// The tags of a detail page come out ordered by (type priority, name), and
/// the order is a rearrangement of the tags the gallery has.
pub proof fn lemma_sort_by_key(s: Seq<(u32, Seq<char>, Seq<char>)>)
    ensures
        sorted_by_key(sort_by_key(s)),
        sort_by_key(s).to_multiset() == s.to_multiset(),
    decreases s.len(),
{
    broadcast use vstd::seq_lib::to_multiset_build, vstd::seq_lib::to_multiset_insert;

    if s.len() > 0 {
        let d = s.drop_last();
        lemma_sort_by_key(d);
        lemma_insert_key_sorted(sort_by_key(d), s.last());
        let p = lemma_key_insert_pos(sort_by_key(d), s.last());
        assert(d.push(s.last()) =~= s);
    }
}


/// The settings table: `(key, label, kind, help text, options)`.
pub open spec fn settings_table() -> Seq<(Seq<char>, Seq<char>, SettingKind, Seq<char>, Seq<(Seq<char>, Seq<char>)>)> {
    seq![
        ("language"@, "Preferred Language"@, SettingKind::Select, "Filter homepage and searches by this language."@, seq![("all"@, "All"@), ("english"@, "English"@), ("japanese"@, "Japanese"@), ("chinese"@, "Chinese"@)]),
        ("api_key"@, "API Key"@, SettingKind::Secret, "Optional. Roughly doubles nhentai's per-minute request ceilings, so browsing and searching throttle less. Create one under your nhentai account settings."@, Seq::empty()),
        ("global_included"@, "Global Included Tags"@, SettingKind::Text, "Added to every search (e.g. \"big breasts\" sole female)"@, Seq::empty()),
        ("global_excluded"@, "Global Excluded Tags"@, SettingKind::Text, "Removed from every search (e.g. -guro -\"ugly bastard\")"@, Seq::empty()),
    ]
}

/// The preferred language, the API key, and the tags added to and removed
/// from every search.
pub fn settings() -> (r: Vec<Setting>)
    ensures
        r@.map_values(|s: Setting| setting_view(s)) == settings_table(),
{
    let pairs0 = [("all", "All"), ("english", "English"), ("japanese", "Japanese"), ("chinese", "Chinese")];
    let options0 = option_list(&pairs0);
    assert(pairs0@.map_values(|p: (&str, &str)| (p.0@, p.1@)) =~= settings_table()[0].4);
    let s0 = setting("language", "Preferred Language", SettingKind::Select, "Filter homepage and searches by this language.", options0);
    let options1: Vec<SelectOption> = Vec::new();
    assert(options1@.map_values(|o: SelectOption| o@) =~= settings_table()[1].4);
    let s1 = setting("api_key", "API Key", SettingKind::Secret, "Optional. Roughly doubles nhentai's per-minute request ceilings, so browsing and searching throttle less. Create one under your nhentai account settings.", options1);
    let options2: Vec<SelectOption> = Vec::new();
    assert(options2@.map_values(|o: SelectOption| o@) =~= settings_table()[2].4);
    let s2 = setting("global_included", "Global Included Tags", SettingKind::Text, "Added to every search (e.g. \"big breasts\" sole female)", options2);
    let options3: Vec<SelectOption> = Vec::new();
    assert(options3@.map_values(|o: SelectOption| o@) =~= settings_table()[3].4);
    let s3 = setting("global_excluded", "Global Excluded Tags", SettingKind::Text, "Removed from every search (e.g. -guro -\"ugly bastard\")", options3);
    let r = vec![s0, s1, s2, s3];
    assert(r@.map_values(|s: Setting| setting_view(s)) =~= settings_table());
    r
}

/// The search filters given the tag options: tags (which can also be
/// excluded), then text filters for artist, group, parody, character, page
/// count, favorites and upload date.
pub open spec fn filters_table(tags: Seq<(Seq<char>, Seq<char>)>) -> Seq<
    (Seq<char>, Seq<char>, FilterKind, Seq<(Seq<char>, Seq<char>)>, Option<Seq<char>>, Option<Seq<char>>, bool),
> {
    seq![
        ("tags"@, "Tags"@, FilterKind::MultiSelect, tags, None, None, true),
        ("artist"@, "Artist"@, FilterKind::Text, Seq::empty(), Some("e.g. shindo l"@), None, false),
        ("group"@, "Group"@, FilterKind::Text, Seq::empty(), Some("e.g. fakku"@), None, false),
        ("parody"@, "Parody"@, FilterKind::Text, Seq::empty(), Some("e.g. touhou project"@), None, false),
        ("character"@, "Character"@, FilterKind::Text, Seq::empty(), Some("e.g. tifa lockhart"@), None, false),
        ("pages"@, "Pages Count"@, FilterKind::Text, Seq::empty(), Some("(e.g. >20, <50, 10-50)"@), None, false),
        ("favorites"@, "Favorites"@, FilterKind::Text, Seq::empty(), Some("(e.g. >500, 1000+, 69<)"@), None, false),
        ("uploaded"@, "Uploaded Date"@, FilterKind::Text, Seq::empty(), Some("(e.g. <7d, >1m, <1y)"@), None, false),
    ]
}

/// The search filters over the given tag options.
pub fn filters(tags: Vec<SelectOption>) -> (r: Vec<Filter>)
    ensures
        filters_view(r@) == filters_table(tags@.map_values(|o: SelectOption| o@)),
{
    let ghost tv = tags@.map_values(|o: SelectOption| o@);
    let r = vec![
        choice_filter("tags", "Tags", FilterKind::MultiSelect, tags, None, true),
        text_filter("artist", "Artist", Some("e.g. shindo l")),
        text_filter("group", "Group", Some("e.g. fakku")),
        text_filter("parody", "Parody", Some("e.g. touhou project")),
        text_filter("character", "Character", Some("e.g. tifa lockhart")),
        text_filter("pages", "Pages Count", Some("(e.g. >20, <50, 10-50)")),
        text_filter("favorites", "Favorites", Some("(e.g. >500, 1000+, 69<)")),
        text_filter("uploaded", "Uploaded Date", Some("(e.g. <7d, >1m, <1y)")),
    ];
    assert(filters_view(r@) =~= filters_table(tv));
    r
}

/// The homepage rows: `(id, title, layout)`, each paginable.
pub open spec fn homepage_table() -> Seq<(Seq<char>, Seq<char>, SectionLayout)> {
    seq![
        ("latest"@, "Latest Updates"@, SectionLayout::TripleRow),
        ("popular_today"@, "Popular Today"@, SectionLayout::SingleRow),
        ("popular_week"@, "Popular This Week"@, SectionLayout::SingleRow),
        ("popular_month"@, "Popular This Month"@, SectionLayout::SingleRow),
        ("popular_all"@, "All-Time Popular"@, SectionLayout::SingleRow),
    ]
}

/// The galleries of a listing reply; none when it carries no result.
pub open spec fn reply_items(reply: V2SearchResponse) -> Seq<V2GalleryListItem> {
    match reply.result {
        Some(v) => v@,
        None => Seq::empty(),
    }
}

/// The homepage from the replies of its five listings (in the order of
/// `homepage_sections`): every row, paginable, with the cards of its reply.
pub fn homepage(replies: Vec<V2SearchResponse>) -> (r: Vec<HomepageSection>)
    requires
        replies@.len() == 5,
    ensures
        r@.len() == 5,
        forall|i: int|
            0 <= i < 5 ==> section_head(#[trigger] r@[i]) == (
                homepage_table()[i].0,
                homepage_table()[i].1,
                homepage_table()[i].2,
                true,
            ),
        forall|i: int|
            0 <= i < 5 ==> (#[trigger] r@[i]).items@.len() == reply_items(replies@[i]).len(),
        forall|i: int, j: int|
            0 <= i < 5 && 0 <= j < r@[i].items@.len() ==> is_card_of(
                #[trigger] r@[i].items@[j],
                reply_items(replies@[i])[j],
            ),
{
    let heads = homepage_sections();
    let ghost all = replies@;
    let mut rest = replies;
    let mut out: Vec<HomepageSection> = Vec::new();
    let mut i: usize = 0;
    while i < 5
        invariant
            i <= 5,
            heads@.len() == 5,
            heads@[0].0@ == "latest"@ && heads@[0].1@ == "Latest Updates"@ && heads@[0].2
                == SectionLayout::TripleRow,
            heads@[1].0@ == "popular_today"@ && heads@[1].1@ == "Popular Today"@,
            heads@[2].0@ == "popular_week"@ && heads@[2].1@ == "Popular This Week"@,
            heads@[3].0@ == "popular_month"@ && heads@[3].1@ == "Popular This Month"@,
            heads@[4].0@ == "popular_all"@ && heads@[4].1@ == "All-Time Popular"@,
            forall|k: int| 1 <= k < 5 ==> (#[trigger] heads@[k]).2 == SectionLayout::SingleRow,
            all.len() == 5,
            rest@ == all.skip(i as int),
            out@.len() == i,
            forall|k: int|
                0 <= k < i ==> section_head(#[trigger] out@[k]) == (
                    homepage_table()[k].0,
                    homepage_table()[k].1,
                    homepage_table()[k].2,
                    true,
                ),
            forall|k: int| 0 <= k < i ==> (#[trigger] out@[k]).items@.len() == reply_items(all[k]).len(),
            forall|k: int, j: int|
                0 <= k < i && 0 <= j < out@[k].items@.len() ==> is_card_of(
                    #[trigger] out@[k].items@[j],
                    reply_items(all[k])[j],
                ),
        decreases 5 - i,
    {
        let reply = rest.remove(0);
        assert(reply == all[i as int]);
        let items = match reply.result {
            Some(v) => map_galleries(v),
            None => Vec::new(),
        };
        let (id, title, layout, _) = heads[i];
        out.push(HomepageSection { id: owned(id), title: owned(title), layout, items, paginable: true });
        assert(rest@ =~= all.skip(i + 1));
        i += 1;
    }
    out
}

/// The terms of the first `n` text filters begin the terms of all of them.
proof fn lemma_text_terms_prefix(values: Seq<Option<Seq<char>>>, n: int)
    requires
        0 <= n <= values.len(),
    ensures
        text_terms(values.take(n)).len() <= text_terms(values).len(),
        text_terms(values).take(text_terms(values.take(n)).len() as int) == text_terms(values.take(n)),
    decreases values.len(),
{
    if n == values.len() {
        assert(values.take(n) =~= values);
    } else {
        let prev = values.drop_last();
        assert(prev.take(n) =~= values.take(n));
        lemma_text_terms_prefix(prev, n);
        let a = text_terms(values.take(n));
        assert(text_terms(values) == text_terms(prev) + filter_term(values.len() - 1, values.last()));
        assert(text_terms(values).take(a.len() as int) =~= text_terms(prev).take(a.len() as int));
    }
}

/// The term of each text filter stands in the query.
proof fn lemma_filter_term_in_query(
    term: Seq<char>,
    included: Seq<Seq<char>>,
    excluded: Seq<Seq<char>>,
    values: Seq<Option<Seq<char>>>,
    k: int,
)
    requires
        0 <= k < values.len(),
    ensures
        contains(search_query_of(term, included, excluded, values), filter_term(k, values[k])),
{
    let q = search_query_of(term, included, excluded, values);
    let head = term + quoted_tags(included, Seq::empty()) + quoted_tags(excluded, "-"@);
    let ft = filter_term(k, values[k]);
    let before = text_terms(values.take(k));
    let upto = values.take(k + 1);
    assert(upto.drop_last() =~= values.take(k));
    assert(upto.last() == values[k]);
    assert(text_terms(upto) == before + ft);
    lemma_text_terms_prefix(values, k + 1);
    let tt = text_terms(values);
    assert(tt.take(text_terms(upto).len() as int) == before + ft);
    let i: int = head.len() as int + before.len();
    assert(q == head + tt);
    assert(q.subrange(i, i + ft.len()) =~= ft) by {
        assert forall|j: int| 0 <= j < ft.len() implies q.subrange(i, i + ft.len())[j] == ft[j] by {
            assert(q[i + j] == tt[before.len() + j]);
            assert(tt[before.len() + j] == tt.take(text_terms(upto).len() as int)[before.len() + j]);
            assert((before + ft)[before.len() + j] == ft[j]);
        }
    }
    assert(matches_at(q, ft, i));
}

/// Artist, group, parody and character are searched as quoted phrases: when
/// one of them (`k` below 4) has a non-empty value `v`, the query holds
/// ` <id>:"v"`, so a value of several words stays one phrase.
pub proof fn lemma_named_filters_are_quoted(
    term: Seq<char>,
    included: Seq<Seq<char>>,
    excluded: Seq<Seq<char>>,
    values: Seq<Option<Seq<char>>>,
    k: int,
    v: Seq<char>,
)
    requires
        values.len() == 7,
        0 <= k < 4,
        values[k] == Some(v),
        v.len() > 0,
    ensures
        contains(
            search_query_of(term, included, excluded, values),
            " "@ + search_text_filter(k) + ":\""@ + v + "\""@,
        ),
{
    reveal_strlit(":");
    reveal_strlit("\"");
    reveal_strlit(":\"");
    lemma_filter_term_in_query(term, included, excluded, values, k);
    assert(":"@ + ("\""@ + v + "\""@) =~= ":\""@ + v + "\""@);
    assert(filter_term(k, values[k]) =~= " "@ + search_text_filter(k) + ":\""@ + v + "\""@);
}

/// Pages, favorites and upload date take their value as written (a range
/// such as `>20` is not a phrase): when one of them (`k` from 4 to 6) has a
/// non-empty value `v`, the query holds ` <id>:v`.
pub proof fn lemma_range_filters_are_bare(
    term: Seq<char>,
    included: Seq<Seq<char>>,
    excluded: Seq<Seq<char>>,
    values: Seq<Option<Seq<char>>>,
    k: int,
    v: Seq<char>,
)
    requires
        values.len() == 7,
        4 <= k < 7,
        values[k] == Some(v),
        v.len() > 0,
    ensures
        contains(search_query_of(term, included, excluded, values), " "@ + search_text_filter(k) + ":"@ + v),
{
    lemma_filter_term_in_query(term, included, excluded, values, k);
}

/// The filter ids, in the order their terms are added.
pub proof fn lemma_text_filter_ids()
    ensures
        search_text_filter(0) == "artist"@,
        search_text_filter(1) == "group"@,
        search_text_filter(2) == "parody"@,
        search_text_filter(3) == "character"@,
        search_text_filter(4) == "pages"@,
        search_text_filter(5) == "favorites"@,
        search_text_filter(6) == "uploaded"@,
{
}

/// The query begins with the search term.
pub proof fn lemma_query_starts_with_term(
    term: Seq<char>,
    included: Seq<Seq<char>>,
    excluded: Seq<Seq<char>>,
    values: Seq<Option<Seq<char>>>,
)
    ensures
        search_query_of(term, included, excluded, values).take(term.len() as int) == term,
{
    let q = search_query_of(term, included, excluded, values);
    assert(q.take(term.len() as int) =~= term);
}

/// Text found inside a piece is found in anything built around it.
proof fn lemma_contains_within(a: Seq<char>, s: Seq<char>, c: Seq<char>, x: Seq<char>)
    requires
        contains(s, x),
    ensures
        contains(a + s + c, x),
{
    let i = choose|i: int| #[trigger] matches_at(s, x, i);
    let t = a + s + c;
    assert(t.subrange(a.len() + i, a.len() + i + x.len()) =~= s.subrange(i, i + x.len()));
    assert(matches_at(t, x, a.len() + i));
}

/// Every tag stands quoted, behind its sign, in the tags' part of a query.
proof fn lemma_quoted_tag_in(tags: Seq<Seq<char>>, sign: Seq<char>, i: int)
    requires
        0 <= i < tags.len(),
    ensures
        contains(quoted_tags(tags, sign), " "@ + sign + "\""@ + tags[i] + "\""@),
    decreases tags.len(),
{
    let x = " "@ + sign + "\""@ + tags[i] + "\""@;
    let prev = tags.drop_last();
    if i == tags.len() - 1 {
        let q = quoted_tags(tags, sign);
        let p = quoted_tags(prev, sign);
        assert(q == p + " "@ + sign + "\""@ + tags.last() + "\""@);
        assert(q.subrange(p.len() as int, p.len() as int + x.len()) =~= x);
        assert(matches_at(q, x, p.len() as int));
    } else {
        lemma_quoted_tag_in(prev, sign, i);
        assert(prev[i] == tags[i]);
        lemma_contains_within(
            Seq::empty(),
            quoted_tags(prev, sign),
            " "@ + sign + "\""@ + tags.last() + "\""@,
            x,
        );
        assert(Seq::<char>::empty() + quoted_tags(prev, sign) + (" "@ + sign + "\""@ + tags.last() + "\""@)
            =~= quoted_tags(tags, sign));
    }
}

/// Every included tag is searched as a quoted phrase, and every excluded
/// tag as a negated quoted phrase: the query holds ` "t"` for each
/// included `t` and ` -"t"` for each excluded `t`.
pub proof fn lemma_tags_are_quoted(
    term: Seq<char>,
    included: Seq<Seq<char>>,
    excluded: Seq<Seq<char>>,
    values: Seq<Option<Seq<char>>>,
)
    ensures
        forall|i: int|
            0 <= i < included.len() ==> contains(
                search_query_of(term, included, excluded, values),
                " \""@ + #[trigger] included[i] + "\""@,
            ),
        forall|i: int|
            0 <= i < excluded.len() ==> contains(
                search_query_of(term, included, excluded, values),
                " -\""@ + #[trigger] excluded[i] + "\""@,
            ),
{
    reveal_strlit(" ");
    reveal_strlit("-");
    reveal_strlit("\"");
    reveal_strlit(" \"");
    reveal_strlit(" -\"");
    let q = search_query_of(term, included, excluded, values);
    let qi = quoted_tags(included, Seq::empty());
    let qe = quoted_tags(excluded, "-"@);
    let tt = text_terms(values);
    assert forall|i: int| 0 <= i < included.len() implies contains(q, " \""@ + #[trigger] included[i] + "\""@) by {
        lemma_quoted_tag_in(included, Seq::empty(), i);
        assert(" "@ + Seq::<char>::empty() + "\""@ + included[i] + "\""@ =~= " \""@ + included[i] + "\""@);
        lemma_contains_within(term, qi, qe + tt, " \""@ + included[i] + "\""@);
        assert(term + qi + (qe + tt) =~= q);
    }
    assert forall|i: int| 0 <= i < excluded.len() implies contains(q, " -\""@ + #[trigger] excluded[i] + "\""@) by {
        lemma_quoted_tag_in(excluded, "-"@, i);
        assert(" "@ + "-"@ + "\""@ + excluded[i] + "\""@ =~= " -\""@ + excluded[i] + "\""@);
        lemma_contains_within(term + qi, qe, tt, " -\""@ + excluded[i] + "\""@);
        assert(term + qi + qe + tt =~= q);
    }
}

} // verus!
