//! The MadaraDex source's decisions: section orders, the homepage rows, the
//! search URL, page addresses, the image CDN's session, and the filter
//! options.
use vstd::prelude::*;
use crate::model::{
    Filter, FilterKind, HomepageSection, MangaSimple, SectionLayout, SelectOption, Setting,
    SourceError, SourceInfo, choice_filter, filters_view, info_view, is_parse_error, option_list,
    section_head, source_info, text_filter,
};
use crate::sources::madaradex::parse::{
    NEXT_LINK, SEARCH_IMG, SEARCH_ITEM, SEARCH_TITLE, cards_of, cards_view, no_descriptions,
    parse_search,
};
use crate::html::selector_error;
use crate::text::{
    chars_of, dec, dec_chars, opt_string, owned, push_all, push_str, str_eq, string_of, strings_view,
};

verus! {

/// The site root.
pub const BASE_URL: &'static str = "https://madaradex.org";

/// MadaraDex's declaration: `org.madaradex`, in English, reaching the site and
/// its CDN.
pub fn info() -> (r: SourceInfo)
    ensures
        info_view(r) == (
            "org.madaradex"@,
            "MadaraDex"@,
            "1.0"@,
            "en"@,
            BASE_URL@,
            seq!["madaradex.org"@, "cdn.madaradex.org"@],
            true,
        ),
{
    let hosts = vec!["madaradex.org", "cdn.madaradex.org"];
    let r = source_info("org.madaradex", "MadaraDex", "1.0", "en", BASE_URL, hosts, true);
    assert(hosts@.map_values(|h: &str| h@) =~= seq!["madaradex.org"@, "cdn.madaradex.org"@]);
    r
}

/// The WordPress AJAX endpoint.
pub const AJAX_URL: &'static str = "https://madaradex.org/wp-admin/admin-ajax.php";

// ---------------------------------------------------------------------------
// Sections and the homepage
// ---------------------------------------------------------------------------

/// The search order a section lists by: each section is named after its
/// order.
pub open spec fn section_order_of(section_id: Seq<char>) -> Option<Seq<char>> {
    if section_id == "trending"@ || section_id == "latest"@ || section_id == "views"@
        || section_id == "rating"@ || section_id == "new-manga"@ {
        Some(section_id)
    } else {
        None
    }
}

/// The order of a section, or a parse error for an unknown one.
pub fn section_order(section_id: &str) -> (r: Result<&'static str, SourceError>)
    ensures
        match section_order_of(section_id@) {
            Some(o) => r matches Ok(v) && v@ == o,
            None => r matches Err(e) && is_parse_error(e, "Unknown section ID"@),
        },
{
    if str_eq(section_id, "trending") {
        Ok("trending")
    } else if str_eq(section_id, "latest") {
        Ok("latest")
    } else if str_eq(section_id, "views") {
        Ok("views")
    } else if str_eq(section_id, "rating") {
        Ok("rating")
    } else if str_eq(section_id, "new-manga") {
        Ok("new-manga")
    } else {
        Err(SourceError::Parse { message: owned("Unknown section ID") })
    }
}

/// The listing URL of a section's page.
pub fn section_url(page: u32, order: &str) -> (r: String)
    ensures
        r@ == BASE_URL@ + "/page/"@ + dec(page as nat) + "/?s=&post_type=wp-manga&m_orderby="@
            + order@,
{
    let mut v = chars_of(BASE_URL);
    push_str(&mut v, "/page/");
    let d = dec_chars(page as u64);
    push_all(&mut v, &d);
    push_str(&mut v, "/?s=&post_type=wp-manga&m_orderby=");
    push_str(&mut v, order);
    string_of(&v)
}

/// The listing URL of a homepage row.
pub fn homepage_url(order: &str) -> (r: String)
    ensures
        r@ == BASE_URL@ + "/?s=&post_type=wp-manga&m_orderby="@ + order@,
{
    let mut v = chars_of(BASE_URL);
    push_str(&mut v, "/?s=&post_type=wp-manga&m_orderby=");
    push_str(&mut v, order);
    string_of(&v)
}

/// The homepage rows, in order: id, title, order and layout.
pub fn homepage_sections() -> (r: Vec<(&'static str, &'static str, &'static str, SectionLayout)>)
    ensures
        r@.len() == 5,
        r@[0].0@ == "trending"@ && r@[0].1@ == "Trending"@ && r@[0].3 == SectionLayout::SingleRow,
        r@[1].0@ == "latest"@ && r@[1].1@ == "Latest Updates"@ && r@[1].3 == SectionLayout::TripleRow,
        r@[2].0@ == "views"@ && r@[2].1@ == "Most Viewed"@ && r@[2].3 == SectionLayout::SingleRow,
        r@[3].0@ == "rating"@ && r@[3].1@ == "Top Rated"@ && r@[3].3 == SectionLayout::SingleRow,
        r@[4].0@ == "new-manga"@ && r@[4].1@ == "New Manga"@ && r@[4].3 == SectionLayout::SingleRow,
        forall|i: int| 0 <= i < 5 ==> (#[trigger] r@[i]).2@ == r@[i].0@,
{
    vec![
        ("trending", "Trending", "trending", SectionLayout::SingleRow),
        ("latest", "Latest Updates", "latest", SectionLayout::TripleRow),
        ("views", "Most Viewed", "views", SectionLayout::SingleRow),
        ("rating", "Top Rated", "rating", SectionLayout::SingleRow),
        ("new-manga", "New Manga", "new-manga", SectionLayout::SingleRow),
    ]
}

/// The cards of a homepage row's listing, when it reads and is not empty:
/// an empty or unreadable row is left off the homepage.
pub fn homepage_items(html: &str) -> (r: Option<Vec<MangaSimple>>)
    ensures
        match r {
            Some(items) => {
                &&& selector_error(seq![SEARCH_ITEM@, SEARCH_TITLE@, SEARCH_IMG@, NEXT_LINK@]) is None
                &&& cards_view(items@) == cards_of(html@, SEARCH_ITEM@, SEARCH_TITLE@, SEARCH_IMG@)
                &&& items@.len() > 0
                &&& no_descriptions(items@)
            },
            None => selector_error(seq![SEARCH_ITEM@, SEARCH_TITLE@, SEARCH_IMG@, NEXT_LINK@]) is Some
                || cards_of(html@, SEARCH_ITEM@, SEARCH_TITLE@, SEARCH_IMG@).len() == 0,
        },
{
    match parse_search(html) {
        Ok(page) => {
            if page.items.len() > 0 {
                Some(page.items)
            } else {
                None
            }
        },
        Err(_) => None,
    }
}

// ---------------------------------------------------------------------------
// Search
// ---------------------------------------------------------------------------

/// A piece of a search URL: its text, to be query-encoded or taken as it is.
pub struct UrlPart {
    pub encode: bool,
    pub text: String,
}

/// The filter values a search reads.
pub struct SearchInput {
    pub page: u32,
    pub term: String,
    pub query: Option<String>,
    pub author: Option<String>,
    pub artist: Option<String>,
    pub release: Option<String>,
    pub op: Option<String>,
    pub adult: Option<String>,
    pub order: Option<String>,
    pub statuses: Vec<String>,
    pub genres: Vec<String>,
}

/// The text a search looks for: the term, else the `query` filter, else
/// `*`.
pub open spec fn user_query_of(term: Seq<char>, query: Option<Seq<char>>) -> Seq<char> {
    if term.len() > 0 {
        term
    } else {
        match query {
            Some(q) => q,
            None => "*"@,
        }
    }
}

/// A text filter's parameter, when it is set: `&name=` then its value,
/// query-encoded.
pub open spec fn text_param(name: Seq<char>, value: Option<Seq<char>>) -> Seq<(bool, Seq<char>)> {
    match value {
        Some(v) => if v.len() > 0 {
            seq![(false, "&"@ + name + "="@), (true, v)]
        } else {
            Seq::empty()
        },
        None => Seq::empty(),
    }
}

/// A select filter's parameter, when it is set: `&name=value`.
pub open spec fn select_param(name: Seq<char>, value: Option<Seq<char>>) -> Seq<(bool, Seq<char>)> {
    match value {
        Some(v) => if v.len() > 0 {
            seq![(false, "&"@ + name + "="@ + v)]
        } else {
            Seq::empty()
        },
        None => Seq::empty(),
    }
}

/// One `&name[]=value` parameter per value.
pub open spec fn list_params(name: Seq<char>, values: Seq<Seq<char>>) -> Seq<(bool, Seq<char>)>
    decreases values.len(),
{
    if values.len() == 0 {
        Seq::empty()
    } else {
        list_params(name, values.drop_last()).push((false, "&"@ + name + "[]="@ + values.last()))
    }
}

/// The pieces of a search URL, in order: the page's address and the
/// encoded query, the post type, the set text filters (encoded), the set
/// condition, adult and order selects, then every included status and
/// genre.
pub open spec fn search_parts_of(s: SearchInput) -> Seq<(bool, Seq<char>)> {
    seq![
        (false, BASE_URL@ + "/page/"@ + dec(s.page as nat) + "/?s="@),
        (true, user_query_of(s.term@, opt_string(s.query))),
        (false, "&post_type=wp-manga"@),
    ] + text_param("author"@, opt_string(s.author)) + text_param(
        "artist"@,
        opt_string(s.artist),
    ) + text_param("release"@, opt_string(s.release)) + select_param(
        "op"@,
        opt_string(s.op),
    ) + select_param("adult"@, opt_string(s.adult)) + select_param(
        "m_orderby"@,
        opt_string(s.order),
    ) + list_params("status"@, strings_view(s.statuses@)) + list_params(
        "genre"@,
        strings_view(s.genres@),
    )
}

/// URL pieces as `(encode, text)`.
pub open spec fn parts_view(v: Seq<UrlPart>) -> Seq<(bool, Seq<char>)> {
    v.map_values(|p: UrlPart| (p.encode, p.text@))
}

fn part(encode: bool, v: &Vec<char>) -> (r: UrlPart)
    ensures
        r.encode == encode,
        r.text@ == v@,
{
    UrlPart { encode, text: string_of(v) }
}

fn push_text_param(parts: &mut Vec<UrlPart>, name: &str, value: &Option<String>)
    ensures
        parts_view(final(parts)@) == parts_view(old(parts)@) + text_param(name@, opt_string(*value)),
{
    let ghost before = parts_view(parts@);
    if let Some(v) = value {
        if !v.as_str().is_empty() {
            let mut key = chars_of("&");
            push_str(&mut key, name);
            push_str(&mut key, "=");
            parts.push(part(false, &key));
            parts.push(UrlPart { encode: true, text: v.clone() });
            assert(parts_view(parts@) =~= before + text_param(name@, opt_string(*value)));
            return;
        }
    }
    assert(parts_view(parts@) =~= before + text_param(name@, opt_string(*value)));
}

fn push_select_param(parts: &mut Vec<UrlPart>, name: &str, value: &Option<String>)
    ensures
        parts_view(final(parts)@) == parts_view(old(parts)@) + select_param(
            name@,
            opt_string(*value),
        ),
{
    let ghost before = parts_view(parts@);
    if let Some(v) = value {
        if !v.as_str().is_empty() {
            let mut t = chars_of("&");
            push_str(&mut t, name);
            push_str(&mut t, "=");
            push_str(&mut t, v.as_str());
            parts.push(part(false, &t));
            assert(parts_view(parts@) =~= before + select_param(name@, opt_string(*value)));
            return;
        }
    }
    assert(parts_view(parts@) =~= before + select_param(name@, opt_string(*value)));
}

fn push_list_params(parts: &mut Vec<UrlPart>, name: &str, values: &Vec<String>)
    ensures
        parts_view(final(parts)@) == parts_view(old(parts)@) + list_params(
            name@,
            strings_view(values@),
        ),
{
    let ghost before = parts_view(parts@);
    let ghost vs = strings_view(values@);
    let mut i: usize = 0;
    while i < values.len()
        invariant
            i <= values@.len(),
            vs == strings_view(values@),
            parts_view(parts@) == before + list_params(name@, vs.take(i as int)),
        decreases values@.len() - i,
    {
        assert(vs.take(i + 1).drop_last() =~= vs.take(i as int));
        let mut t = chars_of("&");
        push_str(&mut t, name);
        push_str(&mut t, "[]=");
        push_str(&mut t, values[i].as_str());
        let ghost prev = parts_view(parts@);
        parts.push(part(false, &t));
        assert(parts_view(parts@) =~= prev.push((false, t@)));
        i += 1;
    }
    assert(vs.take(values@.len() as int) =~= vs);
}

/// The pieces of a search's URL; joined, with the encoded pieces
/// query-encoded, they make the URL.
pub fn search_parts(s: &SearchInput) -> (r: Vec<UrlPart>)
    ensures
        parts_view(r@) == search_parts_of(*s),
{
    let mut parts: Vec<UrlPart> = Vec::new();
    let mut head = chars_of(BASE_URL);
    push_str(&mut head, "/page/");
    let d = dec_chars(s.page as u64);
    push_all(&mut head, &d);
    push_str(&mut head, "/?s=");
    parts.push(part(false, &head));
    let q = if !s.term.as_str().is_empty() {
        s.term.clone()
    } else {
        match &s.query {
            Some(q) => q.clone(),
            None => owned("*"),
        }
    };
    parts.push(UrlPart { encode: true, text: q });
    parts.push(part(false, &chars_of("&post_type=wp-manga")));
    assert(parts_view(parts@) =~= seq![
        (false, BASE_URL@ + "/page/"@ + dec(s.page as nat) + "/?s="@),
        (true, user_query_of(s.term@, opt_string(s.query))),
        (false, "&post_type=wp-manga"@),
    ]);
    push_text_param(&mut parts, "author", &s.author);
    push_text_param(&mut parts, "artist", &s.artist);
    push_text_param(&mut parts, "release", &s.release);
    push_select_param(&mut parts, "op", &s.op);
    push_select_param(&mut parts, "adult", &s.adult);
    push_select_param(&mut parts, "m_orderby", &s.order);
    push_list_params(&mut parts, "status", &s.statuses);
    push_list_params(&mut parts, "genre", &s.genres);
    parts
}

// ---------------------------------------------------------------------------
// Pages and the image CDN's session
// ---------------------------------------------------------------------------

/// The page of a title.
pub fn title_url(manga_id: &str) -> (r: String)
    ensures
        r@ == BASE_URL@ + "/title/"@ + manga_id@ + "/"@,
{
    let mut v = chars_of(BASE_URL);
    push_str(&mut v, "/title/");
    push_str(&mut v, manga_id);
    push_str(&mut v, "/");
    string_of(&v)
}

/// The page of a chapter; with `?style=list` it shows every image at once.
pub fn chapter_url(manga_id: &str, chapter_id: &str, list_style: bool) -> (r: String)
    ensures
        r@ == BASE_URL@ + "/title/"@ + manga_id@ + "/"@ + chapter_id@ + "/"@ + (if list_style {
            "?style=list"@
        } else {
            Seq::empty()
        }),
{
    let mut v = chars_of(BASE_URL);
    push_str(&mut v, "/title/");
    push_str(&mut v, manga_id);
    push_str(&mut v, "/");
    push_str(&mut v, chapter_id);
    push_str(&mut v, "/");
    if list_style {
        push_str(&mut v, "?style=list");
    }
    string_of(&v)
}

/// The cookie carrying this session's fingerprint. The image CDN serves
/// only requests that carry a fingerprint and a token minted against it.
pub fn fingerprint_cookie(fingerprint: &str) -> (r: String)
    ensures
        r@ == "mdx_fp="@ + fingerprint@ + "; Domain=.madaradex.org; Path=/"@,
{
    let mut v = chars_of("mdx_fp=");
    push_str(&mut v, fingerprint);
    push_str(&mut v, "; Domain=.madaradex.org; Path=/");
    string_of(&v)
}

/// The form body asking the site to mint a fresh image token.
pub const AUTH_REFRESH_BODY: &'static str = "action=mdx_auth_refresh";

// ---------------------------------------------------------------------------
// Filter options
// ---------------------------------------------------------------------------

/// The genres a search can include, as `(slug, name)`.
pub open spec fn genre_options_table() -> Seq<(Seq<char>, Seq<char>)> {
    seq![
        ("action"@, "Action"@),
        ("adventure"@, "Adventure"@),
        ("comedy"@, "Comedy"@),
        ("drama"@, "Drama"@),
        ("ecchi"@, "Ecchi"@),
        ("fantasy"@, "Fantasy"@),
        ("harem"@, "Harem"@),
        ("historical"@, "Historical"@),
        ("horror"@, "Horror"@),
        ("isekai"@, "Isekai"@),
        ("martial-arts"@, "Martial Arts"@),
        ("mature"@, "Mature"@),
        ("military"@, "Military"@),
        ("mystery"@, "Mystery"@),
        ("office"@, "Office"@),
        ("psychological"@, "Psychological"@),
        ("romance"@, "Romance"@),
        ("school-life"@, "School Life"@),
        ("sci-fi"@, "Sci-Fi"@),
        ("slice-of-life"@, "Slice of Life"@),
        ("sports"@, "Sports"@),
        ("supernatural"@, "Supernatural"@),
        ("thriller"@, "Thriller"@),
        ("tragedy"@, "Tragedy"@),
        ("yuri"@, "Yuri"@),
    ]
}

/// The options of the genre filter.
pub fn genre_options() -> (r: Vec<SelectOption>)
    ensures
        r@.map_values(|o: SelectOption| o@) == genre_options_table(),
{
    let pairs = [
        ("action", "Action"),
        ("adventure", "Adventure"),
        ("comedy", "Comedy"),
        ("drama", "Drama"),
        ("ecchi", "Ecchi"),
        ("fantasy", "Fantasy"),
        ("harem", "Harem"),
        ("historical", "Historical"),
        ("horror", "Horror"),
        ("isekai", "Isekai"),
        ("martial-arts", "Martial Arts"),
        ("mature", "Mature"),
        ("military", "Military"),
        ("mystery", "Mystery"),
        ("office", "Office"),
        ("psychological", "Psychological"),
        ("romance", "Romance"),
        ("school-life", "School Life"),
        ("sci-fi", "Sci-Fi"),
        ("slice-of-life", "Slice of Life"),
        ("sports", "Sports"),
        ("supernatural", "Supernatural"),
        ("thriller", "Thriller"),
        ("tragedy", "Tragedy"),
        ("yuri", "Yuri"),
    ];
    let r = option_list(&pairs);
    assert(pairs@.map_values(|p: (&str, &str)| (p.0@, p.1@)) =~= genre_options_table());
    r
}

/// The publication states a search can include.
pub open spec fn status_options_table() -> Seq<(Seq<char>, Seq<char>)> {
    seq![
        ("on-going"@, "Ongoing"@),
        ("end"@, "Completed"@),
        ("canceled"@, "Canceled"@),
        ("on-hold"@, "On Hold"@),
        ("upcoming"@, "Upcoming"@),
    ]
}

/// The options of the status filter.
pub fn status_options() -> (r: Vec<SelectOption>)
    ensures
        r@.map_values(|o: SelectOption| o@) == status_options_table(),
{
    let pairs = [
        ("on-going", "Ongoing"),
        ("end", "Completed"),
        ("canceled", "Canceled"),
        ("on-hold", "On Hold"),
        ("upcoming", "Upcoming"),
    ];
    let r = option_list(&pairs);
    assert(pairs@.map_values(|p: (&str, &str)| (p.0@, p.1@)) =~= status_options_table());
    r
}

/// The orders a search can sort by; the empty id is relevance.
pub open spec fn order_options_table() -> Seq<(Seq<char>, Seq<char>)> {
    seq![
        (""@, "Relevance"@),
        ("latest"@, "Latest"@),
        ("alphabet"@, "A-Z"@),
        ("rating"@, "Rating"@),
        ("trending"@, "Trending"@),
        ("views"@, "Most Views"@),
        ("new-manga"@, "New"@),
    ]
}

/// The options of the order filter.
pub fn order_options() -> (r: Vec<SelectOption>)
    ensures
        r@.map_values(|o: SelectOption| o@) == order_options_table(),
{
    let pairs = [
        ("", "Relevance"),
        ("latest", "Latest"),
        ("alphabet", "A-Z"),
        ("rating", "Rating"),
        ("trending", "Trending"),
        ("views", "Most Views"),
        ("new-manga", "New"),
    ];
    let r = option_list(&pairs);
    assert(pairs@.map_values(|p: (&str, &str)| (p.0@, p.1@)) =~= order_options_table());
    r
}

/// How included genres combine: any of them (empty id) or all.
pub open spec fn condition_options_table() -> Seq<(Seq<char>, Seq<char>)> {
    seq![
        (""@, "OR (having one of selected genres)"@),
        ("1"@, "AND (having all selected genres)"@),
    ]
}

/// The options of the condition filter.
pub fn condition_options() -> (r: Vec<SelectOption>)
    ensures
        r@.map_values(|o: SelectOption| o@) == condition_options_table(),
{
    let pairs = [
        ("", "OR (having one of selected genres)"),
        ("1", "AND (having all selected genres)"),
    ];
    let r = option_list(&pairs);
    assert(pairs@.map_values(|p: (&str, &str)| (p.0@, p.1@)) =~= condition_options_table());
    r
}

/// Whether a search shows adult titles: all (empty id), none, or only them.
pub open spec fn adult_options_table() -> Seq<(Seq<char>, Seq<char>)> {
    seq![
        (""@, "All"@),
        ("0"@, "None adult content"@),
        ("1"@, "Only adult content"@),
    ]
}

/// The options of the adult filter.
pub fn adult_options() -> (r: Vec<SelectOption>)
    ensures
        r@.map_values(|o: SelectOption| o@) == adult_options_table(),
{
    let pairs = [
        ("", "All"),
        ("0", "None adult content"),
        ("1", "Only adult content"),
    ];
    let r = option_list(&pairs);
    assert(pairs@.map_values(|p: (&str, &str)| (p.0@, p.1@)) =~= adult_options_table());
    r
}

/// MadaraDex takes no settings.
pub fn settings() -> (r: Vec<Setting>)
    ensures
        r@.len() == 0,
{
    Vec::new()
}

/// The search filters, in order: `(id, label, kind, options, placeholder,
/// default, exclusion)`.
pub open spec fn filters_table() -> Seq<
    (Seq<char>, Seq<char>, FilterKind, Seq<(Seq<char>, Seq<char>)>, Option<Seq<char>>, Option<Seq<char>>, bool),
> {
    let none = Seq::<(Seq<char>, Seq<char>)>::empty();
    seq![
        ("query"@, "Title"@, FilterKind::Text, none, Some("Search..."@), None, false),
        ("author"@, "Author"@, FilterKind::Text, none, Some("Author"@), None, false),
        ("artist"@, "Artist"@, FilterKind::Text, none, Some("Artist"@), None, false),
        ("release"@, "Year of Release"@, FilterKind::Text, none, Some("Year"@), None, false),
        ("op"@, "Genre Condition"@, FilterKind::Select, condition_options_table(), None, Some(""@), false),
        ("adult"@, "Adult Content"@, FilterKind::Select, adult_options_table(), None, Some(""@), false),
        ("status"@, "Status"@, FilterKind::MultiSelect, status_options_table(), None, None, false),
        ("genres"@, "Genres"@, FilterKind::MultiSelect, genre_options_table(), None, None, false),
        ("m_orderby"@, "Order By"@, FilterKind::Sort, order_options_table(), None, Some(""@), false),
    ]
}

/// The search filters: title, author, artist and year as text; the genre
/// condition and adult content as selects; status and genres as
/// multi-selects; and the order.
pub fn filters() -> (r: Vec<Filter>)
    ensures
        filters_view(r@) == filters_table(),
{
    let r = vec![
        text_filter("query", "Title", Some("Search...")),
        text_filter("author", "Author", Some("Author")),
        text_filter("artist", "Artist", Some("Artist")),
        text_filter("release", "Year of Release", Some("Year")),
        choice_filter("op", "Genre Condition", FilterKind::Select, condition_options(), Some(""), false),
        choice_filter("adult", "Adult Content", FilterKind::Select, adult_options(), Some(""), false),
        choice_filter("status", "Status", FilterKind::MultiSelect, status_options(), None, false),
        choice_filter("genres", "Genres", FilterKind::MultiSelect, genre_options(), None, false),
        choice_filter("m_orderby", "Order By", FilterKind::Sort, order_options(), Some(""), false),
    ];
    assert(filters_view(r@) =~= filters_table());
    r
}

/// The homepage rows: `(id, title, layout)`.
pub open spec fn homepage_table() -> Seq<(Seq<char>, Seq<char>, SectionLayout)> {
    seq![
        ("trending"@, "Trending"@, SectionLayout::SingleRow),
        ("latest"@, "Latest Updates"@, SectionLayout::TripleRow),
        ("views"@, "Most Viewed"@, SectionLayout::SingleRow),
        ("rating"@, "Top Rated"@, SectionLayout::SingleRow),
        ("new-manga"@, "New Manga"@, SectionLayout::SingleRow),
    ]
}

/// The HTML of a fetched row; nothing when the fetch failed.
pub open spec fn page_html(page: Option<String>) -> Seq<char> {
    match page {
        Some(h) => h@,
        None => Seq::empty(),
    }
}

/// A row is shown when its page was fetched and lists at least one card.
pub open spec fn row_shown(page: Option<String>) -> bool {
    &&& page is Some
    &&& selector_error(seq![SEARCH_ITEM@, SEARCH_TITLE@, SEARCH_IMG@, NEXT_LINK@]) is None
    &&& cards_of(page_html(page), SEARCH_ITEM@, SEARCH_TITLE@, SEARCH_IMG@).len() > 0
}

/// The indices, below `n`, of the rows that are shown.
pub open spec fn shown_rows(pages: Seq<Option<String>>, n: int) -> Seq<int>
    decreases n,
{
    if n <= 0 {
        Seq::empty()
    } else {
        let prev = shown_rows(pages, n - 1);
        if row_shown(pages[n - 1]) {
            prev.push(n - 1)
        } else {
            prev
        }
    }
}

/// The homepage from the pages of its five rows (in the order of
/// `homepage_sections`; `None` when a fetch failed): a row is shown, in
/// order and paginable, exactly when its page lists cards, with those cards.
pub fn homepage(pages: Vec<Option<String>>) -> (r: Vec<HomepageSection>)
    requires
        pages@.len() == 5,
    ensures
        r@.len() == shown_rows(pages@, 5).len(),
        forall|k: int|
            0 <= k < r@.len() ==> {
                let i = shown_rows(pages@, 5)[k];
                &&& section_head(#[trigger] r@[k]) == (
                    homepage_table()[i].0,
                    homepage_table()[i].1,
                    homepage_table()[i].2,
                    true,
                )
                &&& cards_view(r@[k].items@) == cards_of(
                    page_html(pages@[i]),
                    SEARCH_ITEM@,
                    SEARCH_TITLE@,
                    SEARCH_IMG@,
                )
                &&& no_descriptions(r@[k].items@)
            },
{
    let heads = homepage_sections();
    let ghost all = pages@;
    let mut rest = pages;
    let mut out: Vec<HomepageSection> = Vec::new();
    let mut i: usize = 0;
    while i < 5
        invariant
            i <= 5,
            heads@.len() == 5,
            heads@[0].0@ == "trending"@ && heads@[0].1@ == "Trending"@ && heads@[0].3 == SectionLayout::SingleRow,
            heads@[1].0@ == "latest"@ && heads@[1].1@ == "Latest Updates"@ && heads@[1].3 == SectionLayout::TripleRow,
            heads@[2].0@ == "views"@ && heads@[2].1@ == "Most Viewed"@ && heads@[2].3 == SectionLayout::SingleRow,
            heads@[3].0@ == "rating"@ && heads@[3].1@ == "Top Rated"@ && heads@[3].3 == SectionLayout::SingleRow,
            heads@[4].0@ == "new-manga"@ && heads@[4].1@ == "New Manga"@ && heads@[4].3 == SectionLayout::SingleRow,
            all.len() == 5,
            rest@ == all.skip(i as int),
            out@.len() == shown_rows(all, i as int).len(),
            forall|k: int|
                0 <= k < out@.len() ==> {
                    let j = shown_rows(all, i as int)[k];
                    &&& section_head(#[trigger] out@[k]) == (
                        homepage_table()[j].0,
                        homepage_table()[j].1,
                        homepage_table()[j].2,
                        true,
                    )
                    &&& cards_view(out@[k].items@) == cards_of(
                        page_html(all[j]),
                        SEARCH_ITEM@,
                        SEARCH_TITLE@,
                        SEARCH_IMG@,
                    )
                    &&& no_descriptions(out@[k].items@)
                },
        decreases 5 - i,
    {
        let page = rest.remove(0);
        assert(page == all[i as int]);
        let ghost before = out@;
        let (id, title, _, layout) = heads[i];
        let shown = match &page {
            Some(h) => homepage_items(h.as_str()),
            None => None,
        };
        assert(shown is Some <==> row_shown(all[i as int]));
        match shown {
            Some(items) => {
                out.push(HomepageSection { id: owned(id), title: owned(title), layout, items, paginable: true });
                assert forall|k: int| 0 <= k < out@.len() implies {
                    let j = shown_rows(all, i + 1)[k];
                    &&& section_head(#[trigger] out@[k]) == (
                        homepage_table()[j].0,
                        homepage_table()[j].1,
                        homepage_table()[j].2,
                        true,
                    )
                    &&& cards_view(out@[k].items@) == cards_of(
                        page_html(all[j]),
                        SEARCH_ITEM@,
                        SEARCH_TITLE@,
                        SEARCH_IMG@,
                    )
                    &&& no_descriptions(out@[k].items@)
                } by {
                    if k < before.len() {
                        assert(out@[k] == before[k]);
                    }
                }
            },
            None => {},
        }
        assert(rest@ =~= all.skip(i + 1));
        i += 1;
    }
    out
}

/// A search for a non-empty term looks for exactly that term: the encoded
/// piece of its URL, right after `?s=`, is the term, whatever the `query`
/// filter holds; without a term it is the `query` filter, else `*`.
pub proof fn lemma_search_looks_for_the_term(s: SearchInput)
    ensures
        search_parts_of(s).len() >= 3,
        search_parts_of(s)[0] == (false, "https://madaradex.org/page/"@ + dec(s.page as nat) + "/?s="@),
        s.term@.len() > 0 ==> search_parts_of(s)[1] == (true, s.term@),
        s.term@.len() == 0 ==> search_parts_of(s)[1] == (true, match s.query {
            Some(q) => q@,
            None => "*"@,
        }),
        search_parts_of(s)[2] == (false, "&post_type=wp-manga"@),
{
    reveal_strlit("https://madaradex.org");
    reveal_strlit("/page/");
    reveal_strlit("https://madaradex.org/page/");
    assert(BASE_URL@ + "/page/"@ =~= "https://madaradex.org/page/"@);
    assert(BASE_URL@ + "/page/"@ + dec(s.page as nat) + "/?s="@ =~= ("https://madaradex.org/page/"@
        + dec(s.page as nat)) + "/?s="@);
}

proof fn lemma_list_params(name: Seq<char>, values: Seq<Seq<char>>)
    ensures
        list_params(name, values).len() == values.len(),
        forall|i: int|
            0 <= i < values.len() ==> #[trigger] list_params(name, values)[i] == (false, "&"@ + name + "[]="@
                + values[i]),
    decreases values.len(),
{
    if values.len() > 0 {
        lemma_list_params(name, values.drop_last());
        assert forall|i: int| 0 <= i < values.len() implies #[trigger] list_params(name, values)[i] == (
            false,
            "&"@ + name + "[]="@ + values[i],
        ) by {
            if i < values.len() - 1 {
                assert(values.drop_last()[i] == values[i]);
            }
        }
    }
}

/// A search carries every filter that is set: a non-empty author right
/// after the post type as `&author=` and the (encoded) name, and every
/// included status and genre as its own `&status[]=<status>` or
/// `&genre[]=<genre>` parameter.
pub proof fn lemma_search_carries_its_filters(s: SearchInput)
    ensures
        s.author is Some && s.author->0@.len() > 0 ==> search_parts_of(s)[3] == (false, "&author="@)
            && search_parts_of(s)[4] == (true, s.author->0@),
        forall|i: int|
            0 <= i < s.statuses@.len() ==> search_parts_of(s).contains(
                (false, "&status[]="@ + #[trigger] s.statuses@[i]@),
            ),
        forall|i: int|
            0 <= i < s.genres@.len() ==> search_parts_of(s).contains(
                (false, "&genre[]="@ + #[trigger] s.genres@[i]@),
            ),
{
    reveal_strlit("&");
    reveal_strlit("author");
    reveal_strlit("=");
    reveal_strlit("&author=");
    reveal_strlit("status");
    reveal_strlit("genre");
    reveal_strlit("[]=");
    reveal_strlit("&status[]=");
    reveal_strlit("&genre[]=");
    assert("&"@ + "author"@ + "="@ =~= "&author="@);
    let st = strings_view(s.statuses@);
    let gs = strings_view(s.genres@);
    lemma_list_params("status"@, st);
    lemma_list_params("genre"@, gs);
    let parts = search_parts_of(s);
    let lg = list_params("genre"@, gs);
    let ls = list_params("status"@, st);
    let before_genres = parts.len() - lg.len();
    let before_status = before_genres - ls.len();
    assert forall|i: int| 0 <= i < s.statuses@.len() implies parts.contains(
        (false, "&status[]="@ + #[trigger] s.statuses@[i]@),
    ) by {
        assert(st[i] == s.statuses@[i]@);
        assert("&"@ + "status"@ + "[]="@ + st[i] =~= "&status[]="@ + s.statuses@[i]@);
        assert(parts[before_status + i] == ls[i]);
    }
    assert forall|i: int| 0 <= i < s.genres@.len() implies parts.contains(
        (false, "&genre[]="@ + #[trigger] s.genres@[i]@),
    ) by {
        assert(gs[i] == s.genres@[i]@);
        assert("&"@ + "genre"@ + "[]="@ + gs[i] =~= "&genre[]="@ + s.genres@[i]@);
        assert(parts[before_genres + i] == lg[i]);
    }
}

} // verus!
