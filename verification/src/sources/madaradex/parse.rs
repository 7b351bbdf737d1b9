//! Reading MadaraDex (a WordPress Madara theme site) pages: genre lists,
//! search and listing cards, manga details, chapter lists and chapter
//! images.
use vstd::prelude::*;
use crate::html::{
    attr_of_match, attr_within, check_selectors, count_matches, count_within, inner_attr,
    inner_count, inner_text, match_attr, match_count, match_text, selector_error, text_of_match,
    text_within,
};
use crate::model::{
    Chapter, Manga, MangaPage, MangaSimple, Page, SourceError, Status, Tag, is_parse_error,
    tag_pairs,
};
use crate::text::{
    chars_of, contains, contains_exec, first_word, first_word_chars, lowercase, lowercase_str,
    opt_string, owned, replace_all, replace_all_exec, rfind, rfind_exec, slice_chars,
    string_of, strings_view, strip_trailing, strip_trailing_chars, trim, trim_chars,
};

verus! {

// ---------------------------------------------------------------------------
// Common pieces
// ---------------------------------------------------------------------------

/// The last path segment of a URL, trailing slashes ignored: a title's,
/// genre's or chapter's slug.
pub open spec fn slug(url: Seq<char>) -> Seq<char> {
    let t = strip_trailing(url, '/');
    match rfind(t, "/"@) {
        Some(i) => t.skip(i + 1),
        None => t,
    }
}

/// The slug of a URL.
pub fn slug_of(url: &str) -> (r: String)
    ensures
        r@ == slug(url@),
{
    let v = chars_of(url);
    let t = strip_trailing_chars(&v, '/');
    let slash = chars_of("/");
    proof {
        reveal_strlit("/");
    }
    let _n = t.len();
    let s = match rfind_exec(&t, &slash) {
        Some(i) => slice_chars(&t, i + 1, t.len()),
        None => t,
    };
    string_of(&s)
}

/// A lazily loaded image's address: `data-src`, else `data-lazy-src`, else
/// `src`, else nothing.
pub open spec fn image_source(
    data_src: Option<Seq<char>>,
    lazy_src: Option<Seq<char>>,
    src: Option<Seq<char>>,
) -> Seq<char> {
    match (data_src, lazy_src, src) {
        (Some(a), _, _) => a,
        (None, Some(b), _) => b,
        (None, None, Some(c)) => c,
        _ => Seq::empty(),
    }
}

/// A lazily loaded image's address from its `data-src`, `data-lazy-src`
/// and `src` attributes.
pub fn pick_source(data_src: Option<String>, lazy_src: Option<String>, src: Option<String>) -> (r:
    String)
    ensures
        r@ == image_source(opt_string(data_src), opt_string(lazy_src), opt_string(src)),
{
    match data_src {
        Some(a) => a,
        None => match lazy_src {
            Some(b) => b,
            None => match src {
                Some(c) => c,
                None => String::new(),
            },
        },
    }
}

// ---------------------------------------------------------------------------
// Cards
// ---------------------------------------------------------------------------

/// The address of the first image under the `i`-th `item`, if it has one.
pub open spec fn item_image(html: Seq<char>, item: Seq<char>, i: nat, img: Seq<char>) -> Seq<char> {
    if inner_count(html, item, i, img) > 0 {
        image_source(
            inner_attr(html, item, i, img, 0, "data-src"@),
            inner_attr(html, item, i, img, 0, "data-lazy-src"@),
            inner_attr(html, item, i, img, 0, "src"@),
        )
    } else {
        Seq::empty()
    }
}

/// The card of the `i`-th `item`, as `(id, title, cover)`: from its first
/// title link's slug and trimmed text and its first image; none when it has
/// no title link or the id or title comes out empty.
pub open spec fn card_at(
    html: Seq<char>,
    item: Seq<char>,
    title: Seq<char>,
    img: Seq<char>,
    i: nat,
) -> Option<(Seq<char>, Seq<char>, Seq<char>)> {
    if inner_count(html, item, i, title) == 0 {
        None
    } else {
        card_of_parts(
            inner_attr(html, item, i, title, 0, "href"@),
            inner_text(html, item, i, title, 0),
            item_image(html, item, i, img),
        )
    }
}

/// A card from its title link's `href` and text and its cover: the slug and
/// the trimmed text, none when either is empty.
pub open spec fn card_of_parts(href: Option<Seq<char>>, text: Seq<char>, cover: Seq<char>) -> Option<
    (Seq<char>, Seq<char>, Seq<char>),
> {
    let id = slug(
        match href {
            Some(u) => u,
            None => Seq::empty(),
        },
    );
    let t = trim(text);
    if id.len() > 0 && t.len() > 0 {
        Some((id, t, cover))
    } else {
        None
    }
}

/// A card from its title link's `href` and text and its cover address.
pub fn card_from_parts(href: Option<String>, text: &str, cover: String) -> (r: Option<MangaSimple>)
    ensures
        match card_of_parts(opt_string(href), text@, cover@) {
            Some(c) => r matches Some(m) && (m.id@, m.title@, m.cover_url@) == c && m.description is None,
            None => r is None,
        },
{
    let url = match href {
        Some(u) => u,
        None => String::new(),
    };
    proof {
        reveal_strlit("");
    }
    let t = trim_chars(&chars_of(text));
    let id = slug_of(url.as_str());
    if !id.as_str().is_empty() && t.len() > 0 {
        Some(MangaSimple { id, title: string_of(&t), cover_url: cover, description: None })
    } else {
        None
    }
}

/// The cards of the first `n` items, in order.
pub open spec fn cards_upto(
    html: Seq<char>,
    item: Seq<char>,
    title: Seq<char>,
    img: Seq<char>,
    n: nat,
) -> Seq<(Seq<char>, Seq<char>, Seq<char>)>
    decreases n,
{
    if n == 0 {
        Seq::empty()
    } else {
        let prev = cards_upto(html, item, title, img, (n - 1) as nat);
        match card_at(html, item, title, img, (n - 1) as nat) {
            Some(c) => prev.push(c),
            None => prev,
        }
    }
}

/// The cards of every item of a page.
pub open spec fn cards_of(html: Seq<char>, item: Seq<char>, title: Seq<char>, img: Seq<char>) -> Seq<
    (Seq<char>, Seq<char>, Seq<char>),
> {
    cards_upto(html, item, title, img, match_count(html, item))
}

/// Cards as `(id, title, cover)`.
pub open spec fn cards_view(s: Seq<MangaSimple>) -> Seq<(Seq<char>, Seq<char>, Seq<char>)> {
    s.map_values(|m: MangaSimple| (m.id@, m.title@, m.cover_url@))
}

/// No card carries a description.
pub open spec fn no_descriptions(s: Seq<MangaSimple>) -> bool {
    forall|i: int| 0 <= i < s.len() ==> (#[trigger] s[i]).description is None
}

fn item_image_of(html: &str, item: &str, i: usize, img: &str) -> (r: String)
    requires
        i < match_count(html@, item@),
    ensures
        r@ == item_image(html@, item@, i as nat, img@),
{
    if count_within(html, item, i, img) > 0 {
        let a = attr_within(html, item, i, img, 0, "data-src");
        let b = attr_within(html, item, i, img, 0, "data-lazy-src");
        let c = attr_within(html, item, i, img, 0, "src");
        pick_source(a, b, c)
    } else {
        String::new()
    }
}

fn read_cards(html: &str, item: &str, title: &str, img: &str) -> (r: Vec<MangaSimple>)
    ensures
        cards_view(r@) == cards_of(html@, item@, title@, img@),
        no_descriptions(r@),
{
    let n = count_matches(html, item);
    let mut out: Vec<MangaSimple> = Vec::new();
    let mut i: usize = 0;
    while i < n
        invariant
            i <= n,
            n as nat == match_count(html@, item@),
            cards_view(out@) == cards_upto(html@, item@, title@, img@, i as nat),
            no_descriptions(out@),
        decreases n - i,
    {
        if count_within(html, item, i, title) > 0 {
            let href = attr_within(html, item, i, title, 0, "href");
            let text = text_within(html, item, i, title, 0);
            let cover = item_image_of(html, item, i, img);
            match card_from_parts(href, text.as_str(), cover) {
                Some(card) => {
                    let ghost before = out@;
                    out.push(card);
                    assert(cards_view(out@) =~= cards_view(before).push(
                        card_at(html@, item@, title@, img@, i as nat)->0,
                    ));
                },
                None => {},
            }
        }
        i += 1;
    }
    out
}

/// The cards of a search or listing results page.
pub const SEARCH_ITEM: &'static str = ".c-tabs-item__content";

/// The title link of a results card.
pub const SEARCH_TITLE: &'static str = ".post-title h3 a, .post-title h4 a";

/// The cover of a results card.
pub const SEARCH_IMG: &'static str = ".tab-thumb img";

/// The pager's link to the next page.
pub const NEXT_LINK: &'static str = ".wp-pagenavi .nextpostslink";

/// The title link of a front-page card.
pub const CARD_TITLE: &'static str = ".post-title a";

/// The cover of a front-page card.
pub const CARD_IMG: &'static str = "img";

/// The cards of the new-titles slider (its cloned slides excluded).
pub const SLIDER_ITEM: &'static str = ".popular-slider .slick-slide:not(.slick-cloned) .slider__item";

/// The cards of the latest-updates list.
pub const LATEST_ITEM: &'static str = ".page-content-listing .page-item-detail";

/// A page of search results: its cards, and whether the pager links a next
/// page.
pub fn parse_search(html: &str) -> (r: Result<MangaPage, SourceError>)
    ensures
        match selector_error(seq![SEARCH_ITEM@, SEARCH_TITLE@, SEARCH_IMG@, NEXT_LINK@]) {
            Some(m) => r matches Err(e) && is_parse_error(e, m),
            None => r matches Ok(p) && {
                &&& cards_view(p.items@) == cards_of(html@, SEARCH_ITEM@, SEARCH_TITLE@, SEARCH_IMG@)
                &&& no_descriptions(p.items@)
                &&& p.has_next == (match_count(html@, NEXT_LINK@) > 0)
            },
        },
{
    let sels = vec![SEARCH_ITEM, SEARCH_TITLE, SEARCH_IMG, NEXT_LINK];
    assert(sels@.map_values(|s: &str| s@) =~= seq![SEARCH_ITEM@, SEARCH_TITLE@, SEARCH_IMG@, NEXT_LINK@]);
    match check_selectors(&sels) {
        Err(e) => {
            return Err(e);
        },
        Ok(_) => {},
    }
    let items = read_cards(html, SEARCH_ITEM, SEARCH_TITLE, SEARCH_IMG);
    let has_next = count_matches(html, NEXT_LINK) > 0;
    Ok(MangaPage { has_next, items })
}

/// The cards of the front page's new-titles slider.
pub fn parse_new_manga(html: &str) -> (r: Result<Vec<MangaSimple>, SourceError>)
    ensures
        match selector_error(seq![CARD_TITLE@, CARD_IMG@, SLIDER_ITEM@]) {
            Some(m) => r matches Err(e) && is_parse_error(e, m),
            None => r matches Ok(items) && cards_view(items@) == cards_of(
                html@,
                SLIDER_ITEM@,
                CARD_TITLE@,
                CARD_IMG@,
            ) && no_descriptions(items@),
        },
{
    let sels = vec![CARD_TITLE, CARD_IMG, SLIDER_ITEM];
    assert(sels@.map_values(|s: &str| s@) =~= seq![CARD_TITLE@, CARD_IMG@, SLIDER_ITEM@]);
    match check_selectors(&sels) {
        Err(e) => {
            return Err(e);
        },
        Ok(_) => {},
    }
    Ok(read_cards(html, SLIDER_ITEM, CARD_TITLE, CARD_IMG))
}

/// The cards of the front page's latest-updates list.
pub fn parse_latest_updates(html: &str) -> (r: Result<Vec<MangaSimple>, SourceError>)
    ensures
        match selector_error(seq![CARD_TITLE@, CARD_IMG@, LATEST_ITEM@]) {
            Some(m) => r matches Err(e) && is_parse_error(e, m),
            None => r matches Ok(items) && cards_view(items@) == cards_of(
                html@,
                LATEST_ITEM@,
                CARD_TITLE@,
                CARD_IMG@,
            ) && no_descriptions(items@),
        },
{
    let sels = vec![CARD_TITLE, CARD_IMG, LATEST_ITEM];
    assert(sels@.map_values(|s: &str| s@) =~= seq![CARD_TITLE@, CARD_IMG@, LATEST_ITEM@]);
    match check_selectors(&sels) {
        Err(e) => {
            return Err(e);
        },
        Ok(_) => {},
    }
    Ok(read_cards(html, LATEST_ITEM, CARD_TITLE, CARD_IMG))
}

// ---------------------------------------------------------------------------
// Genres
// ---------------------------------------------------------------------------

/// An entry of the genre list.
pub const GENRE_ITEM: &'static str = "div.row.genres > ul > li";

/// A link.
pub const LINK: &'static str = "a";

/// The genre of the `i`-th genre entry, as `(slug, name)`: from its first
/// link, which must have an `href`; none when it has no link or the slug or
/// name comes out empty.
pub open spec fn genre_at(html: Seq<char>, i: nat) -> Option<(Seq<char>, Seq<char>)> {
    if inner_count(html, GENRE_ITEM@, i, LINK@) == 0 {
        None
    } else {
        tag_of_parts(inner_attr(html, GENRE_ITEM@, i, LINK@, 0, "href"@), inner_text(html, GENRE_ITEM@, i, LINK@, 0))
    }
}

/// The genres of the first `n` entries, in order.
pub open spec fn genres_upto(html: Seq<char>, n: nat) -> Seq<(Seq<char>, Seq<char>)>
    decreases n,
{
    if n == 0 {
        Seq::empty()
    } else {
        let prev = genres_upto(html, (n - 1) as nat);
        match genre_at(html, (n - 1) as nat) {
            Some(g) => prev.push(g),
            None => prev,
        }
    }
}

/// The genres a page lists.
pub fn parse_tags(html: &str) -> (r: Result<Vec<Tag>, SourceError>)
    ensures
        match selector_error(seq![GENRE_ITEM@, LINK@]) {
            Some(m) => r matches Err(e) && is_parse_error(e, m),
            None => r matches Ok(tags) && tag_pairs(tags@) == genres_upto(
                html@,
                match_count(html@, GENRE_ITEM@),
            ),
        },
{
    let sels = vec![GENRE_ITEM, LINK];
    assert(sels@.map_values(|s: &str| s@) =~= seq![GENRE_ITEM@, LINK@]);
    match check_selectors(&sels) {
        Err(e) => {
            return Err(e);
        },
        Ok(_) => {},
    }
    let n = count_matches(html, GENRE_ITEM);
    let mut tags: Vec<Tag> = Vec::new();
    let mut i: usize = 0;
    while i < n
        invariant
            i <= n,
            n as nat == match_count(html@, GENRE_ITEM@),
            tag_pairs(tags@) == genres_upto(html@, i as nat),
        decreases n - i,
    {
        if count_within(html, GENRE_ITEM, i, LINK) > 0 {
            let href = attr_within(html, GENRE_ITEM, i, LINK, 0, "href");
            let text = text_within(html, GENRE_ITEM, i, LINK, 0);
            match tag_from_parts(href, text.as_str()) {
                Some(tag) => {
                    let ghost before = tags@;
                    let ghost pair = (tag.id@, tag.label@);
                    tags.push(tag);
                    assert(tag_pairs(tags@) =~= tag_pairs(before).push(pair));
                },
                None => {},
            }
        }
        i += 1;
    }
    Ok(tags)
}

// ---------------------------------------------------------------------------
// Manga details
// ---------------------------------------------------------------------------

/// The cover of a title page.
pub const COVER_IMG: &'static str = ".summary_image img";

/// An author link of a title page.
pub const AUTHOR_LINK: &'static str = ".author-content a";

/// An artist link of a title page.
pub const ARTIST_LINK: &'static str = ".artist-content a";

/// A genre or tag link of a title page.
pub const TAG_LINK: &'static str = ".genres-content a, .tags-content a";

/// The address of the first image matching `sel`, if there is one.
pub open spec fn first_image(html: Seq<char>, sel: Seq<char>) -> Seq<char> {
    if match_count(html, sel) > 0 {
        image_source(
            match_attr(html, sel, 0, "data-src"@),
            match_attr(html, sel, 0, "data-lazy-src"@),
            match_attr(html, sel, 0, "src"@),
        )
    } else {
        Seq::empty()
    }
}

/// The trimmed texts of every element matching `sel`, in order.
pub open spec fn link_names(html: Seq<char>, sel: Seq<char>) -> Seq<Seq<char>> {
    Seq::new(match_count(html, sel), |k: int| trim(match_text(html, sel, k as nat)))
}

/// The tags of the first `n` tag links, as `(slug, name)`, skipping those
/// whose slug or name comes out empty.
pub open spec fn detail_tags_upto(html: Seq<char>, n: nat) -> Seq<(Seq<char>, Seq<char>)>
    decreases n,
{
    if n == 0 {
        Seq::empty()
    } else {
        let prev = detail_tags_upto(html, (n - 1) as nat);
        let k = (n - 1) as nat;
        match tag_of_parts(match_attr(html, TAG_LINK@, k, "href"@), match_text(html, TAG_LINK@, k)) {
            Some(t) => prev.push(t),
            None => prev,
        }
    }
}

/// A tag from its link's `href` and text: the slug and the trimmed text,
/// none when either is empty.
pub open spec fn tag_of_parts(href: Option<Seq<char>>, text: Seq<char>) -> Option<(Seq<char>, Seq<char>)> {
    let id = slug(
        match href {
            Some(h) => h,
            None => Seq::empty(),
        },
    );
    let label = trim(text);
    if id.len() > 0 && label.len() > 0 {
        Some((id, label))
    } else {
        None
    }
}

/// A tag from its link's `href` and text.
pub fn tag_from_parts(href: Option<String>, text: &str) -> (r: Option<Tag>)
    ensures
        match tag_of_parts(opt_string(href), text@) {
            Some(t) => r matches Some(tag) && (tag.id@, tag.label@) == t,
            None => r is None,
        },
{
    let url = match href {
        Some(h) => h,
        None => String::new(),
    };
    proof {
        reveal_strlit("");
    }
    let label = trim_chars(&chars_of(text));
    let id = slug_of(url.as_str());
    if !id.as_str().is_empty() && label.len() > 0 {
        Some(Tag { id, label: string_of(&label) })
    } else {
        None
    }
}

/// The status a title's status line names, read case-insensitively: ongoing,
/// completed (or ended), canceled, on hold, or unknown.
pub open spec fn status_of(text: Seq<char>) -> Status {
    let s = lowercase(text);
    if contains(s, "ongoing"@) {
        Status::Ongoing
    } else if contains(s, "completed"@) || contains(s, "end"@) {
        Status::Completed
    } else if contains(s, "canceled"@) {
        Status::Cancelled
    } else if contains(s, "on-hold"@) {
        Status::Hiatus
    } else {
        Status::Unknown
    }
}

fn contains_str(s: &Vec<char>, p: &str) -> (r: bool)
    ensures
        r == contains(s@, p@),
{
    contains_exec(s, &chars_of(p))
}

/// The status a status line names.
pub fn parse_status(text: &str) -> (r: Status)
    ensures
        r == status_of(text@),
{
    let s = chars_of(lowercase_str(text).as_str());
    if contains_str(&s, "ongoing") {
        Status::Ongoing
    } else if contains_str(&s, "completed") || contains_str(&s, "end") {
        Status::Completed
    } else if contains_str(&s, "canceled") {
        Status::Cancelled
    } else if contains_str(&s, "on-hold") {
        Status::Hiatus
    } else {
        Status::Unknown
    }
}

fn names_of(html: &str, sel: &str) -> (r: Vec<String>)
    ensures
        strings_view(r@) == link_names(html@, sel@),
{
    let n = count_matches(html, sel);
    let mut out: Vec<String> = Vec::new();
    let mut i: usize = 0;
    while i < n
        invariant
            i <= n,
            n as nat == match_count(html@, sel@),
            strings_view(out@) == link_names(html@, sel@).take(i as int),
        decreases n - i,
    {
        let t = trim_chars(&chars_of(text_of_match(html, sel, i).as_str()));
        let ghost before = out@;
        out.push(string_of(&t));
        assert(strings_view(out@) =~= strings_view(before).push(t@));
        assert(link_names(html@, sel@).take(i + 1) =~= link_names(html@, sel@).take(i as int).push(
            t@,
        ));
        i += 1;
    }
    assert(link_names(html@, sel@).take(n as int) =~= link_names(html@, sel@));
    out
}

/// A title's details. The title, description and status line come in as
/// read off the page (`.post-title h1`, `.summary__content` and
/// `.post-status .summary-content`, when present); the cover, credits and
/// tags are read here.
pub fn parse_manga_details(
    html: &str,
    manga_id: &str,
    title: Option<String>,
    description: Option<String>,
    status_text: Option<String>,
) -> (r: Result<Manga, SourceError>)
    ensures
        match selector_error(seq![COVER_IMG@, AUTHOR_LINK@, ARTIST_LINK@, TAG_LINK@]) {
            Some(m) => r matches Err(e) && is_parse_error(e, m),
            None => r matches Ok(m) && {
                &&& m.id@ == manga_id@
                &&& opt_string(title) matches Some(t) ==> m.title@ == t
                &&& title is None ==> m.title@.len() == 0
                &&& opt_string(description) matches Some(d) ==> m.description@ == d
                &&& description is None ==> m.description@.len() == 0
                &&& tag_pairs(m.tags@) == detail_tags_upto(html@, match_count(html@, TAG_LINK@))
                &&& forall|k: int|
                    0 <= k < m.tags@.len() ==> (#[trigger] m.tags@[k]).id@.len() > 0
                        && m.tags@[k].label@.len() > 0
                &&& m.cover_url@ == first_image(html@, COVER_IMG@)
                &&& strings_view(m.author@) == link_names(html@, AUTHOR_LINK@)
                &&& strings_view(m.artist@) == link_names(html@, ARTIST_LINK@)
                &&& m.status == status_of(
                    match opt_string(status_text) {
                        Some(s) => s,
                        None => Seq::empty(),
                    },
                )
                &&& m.last_updated@.len() == 0
                &&& m.rating is None
                &&& m.views is None
            },
        },
{
    let sels = vec![COVER_IMG, AUTHOR_LINK, ARTIST_LINK, TAG_LINK];
    assert(sels@.map_values(|s: &str| s@) =~= seq![COVER_IMG@, AUTHOR_LINK@, ARTIST_LINK@, TAG_LINK@]);
    match check_selectors(&sels) {
        Err(e) => {
            return Err(e);
        },
        Ok(_) => {},
    }
    let cover_url = if count_matches(html, COVER_IMG) > 0 {
        let a = attr_of_match(html, COVER_IMG, 0, "data-src");
        let b = attr_of_match(html, COVER_IMG, 0, "data-lazy-src");
        let c = attr_of_match(html, COVER_IMG, 0, "src");
        pick_source(a, b, c)
    } else {
        String::new()
    };
    let author = names_of(html, AUTHOR_LINK);
    let artist = names_of(html, ARTIST_LINK);
    let n = count_matches(html, TAG_LINK);
    let mut tags: Vec<Tag> = Vec::new();
    let mut i: usize = 0;
    while i < n
        invariant
            i <= n,
            n as nat == match_count(html@, TAG_LINK@),
            tag_pairs(tags@) == detail_tags_upto(html@, i as nat),
            forall|k: int|
                0 <= k < tags@.len() ==> (#[trigger] tags@[k]).id@.len() > 0 && tags@[k].label@.len()
                    > 0,
        decreases n - i,
    {
        let href = attr_of_match(html, TAG_LINK, i, "href");
        let text = text_of_match(html, TAG_LINK, i);
        match tag_from_parts(href, text.as_str()) {
            Some(tag) => {
                let ghost before = tags@;
                let ghost pair = (tag.id@, tag.label@);
                tags.push(tag);
                assert(tag_pairs(tags@) =~= tag_pairs(before).push(pair));
            },
            None => {},
        }
        i += 1;
    }
    proof {
        reveal_strlit("");
        assert(""@ =~= Seq::<char>::empty());
    }
    let status = match &status_text {
        Some(s) => parse_status(s.as_str()),
        None => parse_status(""),
    };
    Ok(
        Manga {
            id: owned(manga_id),
            title: match title {
                Some(t) => t,
                None => String::new(),
            },
            description: match description {
                Some(d) => d,
                None => String::new(),
            },
            tags,
            cover_url,
            author,
            artist,
            status,
            last_updated: String::new(),
            rating: None,
            views: None,
        },
    )
}

// ---------------------------------------------------------------------------
// Chapters and pages
// ---------------------------------------------------------------------------

/// An entry of a title's chapter list.
pub const CHAPTER_ITEM: &'static str = ".wp-manga-chapter";

/// A chapter's release date as text.
pub const DATE_TEXT: &'static str = ".chapter-release-date i";

/// A chapter's release date as a link titled with it.
pub const DATE_LINK: &'static str = ".chapter-release-date a";

/// A chapter image.
pub const PAGE_IMG: &'static str = ".wp-manga-chapter-img, .reading-content img";

/// A chapter's number as text: the first word of its title once lowercased
/// and stripped of `chapter`; `0` when nothing is left.
pub open spec fn chapter_number(title: Seq<char>) -> Seq<char> {
    let w = first_word(trim(replace_all(lowercase(title), "chapter"@, Seq::empty())));
    if w.len() == 0 {
        "0"@
    } else {
        w
    }
}

/// The chapter number text of a chapter title.
pub fn chapter_number_of(title: &str) -> (r: String)
    ensures
        r@ == chapter_number(title@),
{
    let low = chars_of(lowercase_str(title).as_str());
    let word = chars_of("chapter");
    proof {
        reveal_strlit("chapter");
    }
    let nothing: Vec<char> = Vec::new();
    let stripped = replace_all_exec(&low, &word, &nothing);
    let w = first_word_chars(&trim_chars(&stripped));
    if w.len() == 0 {
        owned("0")
    } else {
        string_of(&w)
    }
}

/// The release date of the `i`-th chapter entry: the title of its date
/// link, else the trimmed text of its date, else nothing.
pub open spec fn release_date(html: Seq<char>, i: nat) -> Seq<char> {
    if inner_count(html, CHAPTER_ITEM@, i, DATE_LINK@) > 0 {
        match inner_attr(html, CHAPTER_ITEM@, i, DATE_LINK@, 0, "title"@) {
            Some(t) => t,
            None => Seq::empty(),
        }
    } else if inner_count(html, CHAPTER_ITEM@, i, DATE_TEXT@) > 0 {
        trim(inner_text(html, CHAPTER_ITEM@, i, DATE_TEXT@, 0))
    } else {
        Seq::empty()
    }
}

/// The chapter of the `i`-th chapter entry, as `(id, title, url, date,
/// number)`: from its first link's slug, trimmed text and address; none
/// when it has no link or the slug comes out empty.
pub open spec fn chapter_at(html: Seq<char>, i: nat) -> Option<
    (Seq<char>, Seq<char>, Seq<char>, Seq<char>, Seq<char>),
> {
    if inner_count(html, CHAPTER_ITEM@, i, LINK@) == 0 {
        None
    } else {
        chapter_of_parts(
            inner_attr(html, CHAPTER_ITEM@, i, LINK@, 0, "href"@),
            inner_text(html, CHAPTER_ITEM@, i, LINK@, 0),
            release_date(html, i),
        )
    }
}

/// A chapter from its link's `href` and text and its release date, as
/// `(id, title, url, date, number)`: the slug, the trimmed text, the link,
/// the date and the number read from the title; none when the slug is empty.
pub open spec fn chapter_of_parts(href: Option<Seq<char>>, text: Seq<char>, date: Seq<char>) -> Option<
    (Seq<char>, Seq<char>, Seq<char>, Seq<char>, Seq<char>),
> {
    let url = match href {
        Some(u) => u,
        None => Seq::empty(),
    };
    let title = trim(text);
    if slug(url).len() > 0 {
        Some((slug(url), title, url, date, chapter_number(title)))
    } else {
        None
    }
}

/// The chapters of the first `n` entries, in order.
pub open spec fn chapters_upto(html: Seq<char>, n: nat) -> Seq<
    (Seq<char>, Seq<char>, Seq<char>, Seq<char>, Seq<char>),
>
    decreases n,
{
    if n == 0 {
        Seq::empty()
    } else {
        let prev = chapters_upto(html, (n - 1) as nat);
        match chapter_at(html, (n - 1) as nat) {
            Some(c) => prev.push(c),
            None => prev,
        }
    }
}

/// Chapters as `(id, title, url, date, number)`.
pub open spec fn chapters_view(s: Seq<Chapter>) -> Seq<
    (Seq<char>, Seq<char>, Seq<char>, Seq<char>, Seq<char>),
> {
    s.map_values(|c: Chapter| (c.id@, c.title@, c.url@, c.upload_date@, c.number@))
}

/// What every chapter of a MadaraDex title shares: the title's id, English,
/// no page count or scanlator, not locked.
pub open spec fn madaradex_chapter(c: Chapter, manga_id: Seq<char>) -> bool {
    &&& c.manga_id@ == manga_id
    &&& c.language@ == "en"@
    &&& c.page_count is None
    &&& c.scanlator is None
    &&& !c.is_locked
}

fn release_date_of(html: &str, i: usize) -> (r: String)
    requires
        i < match_count(html@, CHAPTER_ITEM@),
    ensures
        r@ == release_date(html@, i as nat),
{
    if count_within(html, CHAPTER_ITEM, i, DATE_LINK) > 0 {
        match attr_within(html, CHAPTER_ITEM, i, DATE_LINK, 0, "title") {
            Some(t) => t,
            None => String::new(),
        }
    } else if count_within(html, CHAPTER_ITEM, i, DATE_TEXT) > 0 {
        let t = trim_chars(&chars_of(text_within(html, CHAPTER_ITEM, i, DATE_TEXT, 0).as_str()));
        string_of(&t)
    } else {
        String::new()
    }
}

/// A chapter of title `manga_id` from its link's `href` and text and its
/// release date.
pub fn chapter_from_parts(manga_id: &str, href: Option<String>, text: &str, date: String) -> (r: Option<
    Chapter,
>)
    ensures
        match chapter_of_parts(opt_string(href), text@, date@) {
            Some(c) => r matches Some(ch) && (ch.id@, ch.title@, ch.url@, ch.upload_date@, ch.number@) == c
                && madaradex_chapter(ch, manga_id@),
            None => r is None,
        },
{
    let url = match href {
        Some(u) => u,
        None => String::new(),
    };
    proof {
        reveal_strlit("");
    }
    let title = string_of(&trim_chars(&chars_of(text)));
    let id = slug_of(url.as_str());
    if !id.as_str().is_empty() {
        let number = chapter_number_of(title.as_str());
        Some(
            Chapter {
                id,
                title,
                manga_id: owned(manga_id),
                number,
                language: owned("en"),
                upload_date: date,
                page_count: None,
                scanlator: None,
                url,
                is_locked: false,
            },
        )
    } else {
        None
    }
}

/// The chapters a title page lists, in page order.
pub fn parse_chapter_list(html: &str, manga_id: &str) -> (r: Result<Vec<Chapter>, SourceError>)
    ensures
        match selector_error(seq![CHAPTER_ITEM@, LINK@, DATE_TEXT@, DATE_LINK@]) {
            Some(m) => r matches Err(e) && is_parse_error(e, m),
            None => r matches Ok(cs) && chapters_view(cs@) == chapters_upto(
                html@,
                match_count(html@, CHAPTER_ITEM@),
            ) && forall|i: int| 0 <= i < cs@.len() ==> madaradex_chapter(#[trigger] cs@[i], manga_id@),
        },
{
    let sels = vec![CHAPTER_ITEM, LINK, DATE_TEXT, DATE_LINK];
    assert(sels@.map_values(|s: &str| s@) =~= seq![CHAPTER_ITEM@, LINK@, DATE_TEXT@, DATE_LINK@]);
    match check_selectors(&sels) {
        Err(e) => {
            return Err(e);
        },
        Ok(_) => {},
    }
    let n = count_matches(html, CHAPTER_ITEM);
    let mut chapters: Vec<Chapter> = Vec::new();
    let mut i: usize = 0;
    while i < n
        invariant
            i <= n,
            n as nat == match_count(html@, CHAPTER_ITEM@),
            chapters_view(chapters@) == chapters_upto(html@, i as nat),
            forall|k: int| 0 <= k < chapters@.len() ==> madaradex_chapter(#[trigger] chapters@[k], manga_id@),
        decreases n - i,
    {
        if count_within(html, CHAPTER_ITEM, i, LINK) > 0 {
            let href = attr_within(html, CHAPTER_ITEM, i, LINK, 0, "href");
            let text = text_within(html, CHAPTER_ITEM, i, LINK, 0);
            let date = release_date_of(html, i);
            match chapter_from_parts(manga_id, href, text.as_str(), date) {
                Some(ch) => {
                    let ghost before = chapters@;
                    let ghost entry = (ch.id@, ch.title@, ch.url@, ch.upload_date@, ch.number@);
                    chapters.push(ch);
                    assert(chapters_view(chapters@) =~= chapters_view(before).push(entry));
                },
                None => {},
            }
        }
        i += 1;
    }
    Ok(chapters)
}

/// The pages of the first `n` chapter images, as `(number, address)`: each
/// image's trimmed address, numbered by its position (as a `u32`); images
/// without one are skipped.
pub open spec fn pages_upto(html: Seq<char>, n: nat) -> Seq<(u32, Seq<char>)>
    decreases n,
{
    if n == 0 {
        Seq::empty()
    } else {
        let prev = pages_upto(html, (n - 1) as nat);
        let k = (n - 1) as nat;
        match page_of_parts(
            k,
            match_attr(html, PAGE_IMG@, k, "data-src"@),
            match_attr(html, PAGE_IMG@, k, "data-lazy-src"@),
            match_attr(html, PAGE_IMG@, k, "src"@),
        ) {
            Some(p) => prev.push(p),
            None => prev,
        }
    }
}

/// Page `k` from its image's `data-src`, `data-lazy-src` and `src`: the
/// trimmed address, none when it is empty.
pub open spec fn page_of_parts(
    k: nat,
    data_src: Option<Seq<char>>,
    lazy_src: Option<Seq<char>>,
    src: Option<Seq<char>>,
) -> Option<(u32, Seq<char>)> {
    let url = trim(image_source(data_src, lazy_src, src));
    if url.len() > 0 {
        Some((k as u32, url))
    } else {
        None
    }
}

/// Page `index` from its image's `data-src`, `data-lazy-src` and `src`.
pub fn page_from_parts(index: usize, data_src: Option<String>, lazy_src: Option<String>, src: Option<String>) -> (r:
    Option<Page>)
    ensures
        match page_of_parts(index as nat, opt_string(data_src), opt_string(lazy_src), opt_string(src)) {
            Some(p) => r matches Some(page) && (page.number, page.image_url@) == p,
            None => r is None,
        },
{
    let url = trim_chars(&chars_of(pick_source(data_src, lazy_src, src).as_str()));
    if url.len() > 0 {
        Some(Page { number: #[verifier::truncate] (index as u32), image_url: string_of(&url) })
    } else {
        None
    }
}

/// Pages as `(number, image URL)`.
pub open spec fn pages_view(v: Seq<Page>) -> Seq<(u32, Seq<char>)> {
    v.map_values(|p: Page| (p.number, p.image_url@))
}

/// The images of a chapter page, in page order.
pub fn parse_chapter_pages(html: &str) -> (r: Result<Vec<Page>, SourceError>)
    ensures
        match selector_error(seq![PAGE_IMG@]) {
            Some(m) => r matches Err(e) && is_parse_error(e, m),
            None => r matches Ok(ps) && pages_view(ps@) == pages_upto(
                html@,
                match_count(html@, PAGE_IMG@),
            ),
        },
{
    let sels = vec![PAGE_IMG];
    assert(sels@.map_values(|s: &str| s@) =~= seq![PAGE_IMG@]);
    match check_selectors(&sels) {
        Err(e) => {
            return Err(e);
        },
        Ok(_) => {},
    }
    let n = count_matches(html, PAGE_IMG);
    let mut pages: Vec<Page> = Vec::new();
    let mut i: usize = 0;
    while i < n
        invariant
            i <= n,
            n as nat == match_count(html@, PAGE_IMG@),
            pages_view(pages@) == pages_upto(html@, i as nat),
        decreases n - i,
    {
        let a = attr_of_match(html, PAGE_IMG, i, "data-src");
        let b = attr_of_match(html, PAGE_IMG, i, "data-lazy-src");
        let c = attr_of_match(html, PAGE_IMG, i, "src");
        match page_from_parts(i, a, b, c) {
            Some(page) => {
                let ghost before = pages@;
                let ghost entry = (page.number, page.image_url@);
                pages.push(page);
                assert(pages_view(pages@) =~= pages_view(before).push(entry));
            },
            None => {},
        }
        i += 1;
    }
    Ok(pages)
}

} // verus!
