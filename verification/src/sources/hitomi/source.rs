//! The Hitomi source's decisions: which id list a section or a search reads,
//! the window of ids a page shows, the manga a gallery script describes, its
//! single chapter and its pages.
use vstd::prelude::*;
use crate::model::{
    Chapter, Filter, FilterKind, HomepageSection, Manga, MangaPage, MangaSimple, Page,
    SectionLayout, SelectOption, Setting, SettingKind, SourceError, SourceInfo, Status, Tag,
    choice_filter, filters_view, info_view, is_parse_error, option_list, section_head, setting,
    setting_view, source_info, tag_pairs, text_filter,
};
use crate::sources::hitomi::api::{HitomiAuthor, HitomiFileJson, HitomiGalleryJson, HitomiTagJson};
use crate::sources::hitomi::util::{HitomiResolver, get_nozomi_url, hash_splits_of, nozomi_url};
use crate::text::{
    chars_of, first_word, first_word_chars, opt_str, owned, push_str, split_once,
    split_once_exec, str_eq, string_of, strings_view,
};

verus! {

/// The site root.
pub const BASE_URL: &'static str = "https://hitomi.la";

/// Hitomi's declaration: `la.hitomi`, reaching the site, its gallery
/// index host and the image shards.
pub fn info() -> (r: SourceInfo)
    ensures
        info_view(r) == (
            "la.hitomi"@,
            "Hitomi.la"@,
            "1.0"@,
            "multi"@,
            BASE_URL@,
            seq!["hitomi.la"@, "ltn.gold-usergeneratedcontent.net"@, "*.hitomi.la"@],
            true,
        ),
{
    let hosts = vec!["hitomi.la", "ltn.gold-usergeneratedcontent.net", "*.hitomi.la"];
    let r = source_info("la.hitomi", "Hitomi.la", "1.0", "multi", BASE_URL, hosts, true);
    assert(hosts@.map_values(|h: &str| h@) =~= seq!["hitomi.la"@, "ltn.gold-usergeneratedcontent.net"@, "*.hitomi.la"@]);
    r
}

/// Galleries per listing or search page.
pub const ITEMS_PER_PAGE: usize = 20;

/// Galleries per homepage row.
pub const ITEMS_PER_ROW: usize = 27;

// ---------------------------------------------------------------------------
// Listings
// ---------------------------------------------------------------------------

/// The window of ids page `page` (counted from 1) shows: from
/// `(page - 1) * 20` up to, not including, twenty more.
pub fn item_range(page: u32) -> (r: (usize, usize))
    requires
        page >= 1,
        page * 20 <= usize::MAX,
    ensures
        r.0 == (page - 1) * 20,
        r.1 == r.0 + 20,
{
    let p = page as usize;
    let start = (p - 1) * ITEMS_PER_PAGE;
    (start, start + ITEMS_PER_PAGE)
}

/// The id list of a homepage section: the language's index for `latest`,
/// today's and this week's popularity rankings for `popular_today` and
/// `popular_week`.
pub open spec fn section_nozomi_of(section_id: Seq<char>, language: Seq<char>) -> Option<
    Seq<char>,
> {
    if section_id == "latest"@ {
        Some(nozomi_url(None, None, language, None))
    } else if section_id == "popular_today"@ {
        Some(nozomi_url(None, None, language, Some("day"@)))
    } else if section_id == "popular_week"@ {
        Some(nozomi_url(None, None, language, Some("week"@)))
    } else {
        None
    }
}

/// The id list a section reads, or a parse error for an unknown section.
pub fn section_nozomi_url(section_id: &str, language: &str) -> (r: Result<String, SourceError>)
    ensures
        match section_nozomi_of(section_id@, language@) {
            Some(u) => r matches Ok(s) && s@ == u,
            None => r matches Err(e) && is_parse_error(e, "Unknown section ID"@),
        },
{
    if str_eq(section_id, "latest") {
        Ok(get_nozomi_url(None, None, language, None))
    } else if str_eq(section_id, "popular_today") {
        Ok(get_nozomi_url(None, None, language, Some("day")))
    } else if str_eq(section_id, "popular_week") {
        Ok(get_nozomi_url(None, None, language, Some("week")))
    } else {
        Err(SourceError::Parse { message: owned("Unknown section ID") })
    }
}

/// The homepage sections, in order: id, title, layout and id list.
pub fn homepage_sections(language: &str) -> (r: Vec<(&'static str, &'static str, SectionLayout, String)>)
    ensures
        r@.len() == 3,
        r@[0].0@ == "latest"@ && r@[0].1@ == "Latest Updates"@ && r@[0].2 == SectionLayout::TripleRow,
        r@[1].0@ == "popular_today"@ && r@[1].1@ == "Popular Today"@ && r@[1].2
            == SectionLayout::SingleRow,
        r@[2].0@ == "popular_week"@ && r@[2].1@ == "Popular This Week"@ && r@[2].2
            == SectionLayout::SingleRow,
        forall|i: int| 0 <= i < 3 ==> section_nozomi_of((#[trigger] r@[i]).0@, language@) == Some(r@[i].3@),
{
    let latest = get_nozomi_url(None, None, language, None);
    let today = get_nozomi_url(None, None, language, Some("day"));
    let week = get_nozomi_url(None, None, language, Some("week"));
    proof {
        reveal_strlit("latest");
        reveal_strlit("popular_today");
        reveal_strlit("popular_week");
    }
    vec![
        ("latest", "Latest Updates", SectionLayout::TripleRow, latest),
        ("popular_today", "Popular Today", SectionLayout::SingleRow, today),
        ("popular_week", "Popular This Week", SectionLayout::SingleRow, week),
    ]
}

/// The card of a gallery in a listing.
pub fn manga_card(manga: Manga) -> (r: MangaSimple)
    ensures
        r.id@ == manga.id@,
        r.title@ == manga.title@,
        r.cover_url@ == manga.cover_url@,
        r.description is None,
{
    MangaSimple { id: manga.id, title: manga.title, cover_url: manga.cover_url, description: None }
}

/// A page of listing results: there is a next page when the id window came
/// back full.
pub fn listing_page(id_count: usize, items: Vec<MangaSimple>) -> (r: MangaPage)
    ensures
        r.has_next == (id_count == ITEMS_PER_PAGE),
        r.items@ == items@,
{
    MangaPage { has_next: id_count == ITEMS_PER_PAGE, items }
}

// ---------------------------------------------------------------------------
// Search
// ---------------------------------------------------------------------------

/// The query a search runs: its term, else the `query` filter, else nothing.
pub open spec fn user_query_of(term: Seq<char>, filter_query: Option<Seq<char>>) -> Seq<char> {
    if term.len() > 0 {
        term
    } else {
        match filter_query {
            Some(q) => q,
            None => Seq::empty(),
        }
    }
}

/// The query a search runs.
pub fn user_query(term: &str, filter_query: Option<&str>) -> (r: String)
    ensures
        r@ == user_query_of(term@, opt_str(filter_query)),
{
    if !term.is_empty() {
        owned(term)
    } else {
        match filter_query {
            Some(q) => owned(q),
            None => String::new(),
        }
    }
}

/// The tag a query searches: its first word read as `type:name`, or as a
/// plain `tag` name when it has no colon; none for an empty query, which
/// lists the language's index.
pub open spec fn search_target_of(query: Seq<char>) -> Option<(Seq<char>, Seq<char>)> {
    if query.len() == 0 {
        None
    } else {
        let first = first_word(query);
        match split_once(first, ':') {
            Some((t, n)) => Some((t, n)),
            None => Some(("tag"@, first)),
        }
    }
}

/// The tag type and raw name a query searches, if any.
pub fn search_target(query: &str) -> (r: Option<(String, String)>)
    ensures
        match search_target_of(query@) {
            Some((t, n)) => r matches Some(p) && p.0@ == t && p.1@ == n,
            None => r is None,
        },
{
    if query.is_empty() {
        return None;
    }
    let q = chars_of(query);
    let first = first_word_chars(&q);
    match split_once_exec(&first, ':') {
        Some((t, n)) => Some((string_of(&t), string_of(&n))),
        None => Some((owned("tag"), string_of(&first))),
    }
}

/// The id list a search reads; `encoded_name` is the searched tag's name in
/// the form `nozomi_tag_name` gives it, query-encoded.
pub fn search_nozomi_url(query: &str, encoded_name: &str, language: &str) -> (r: String)
    ensures
        r@ == match search_target_of(query@) {
            Some((t, _)) => nozomi_url(Some(t), Some(encoded_name@), language@, None),
            None => nozomi_url(None, None, language@, None),
        },
{
    match search_target(query) {
        Some((t, _)) => get_nozomi_url(Some(t.as_str()), Some(encoded_name), language, None),
        None => get_nozomi_url(None, None, language, None),
    }
}

// ---------------------------------------------------------------------------
// Galleries
// ---------------------------------------------------------------------------

/// The file extension an image is fetched in: `webp` when the gallery has
/// it, else `avif`.
pub open spec fn file_ext(f: HitomiFileJson) -> Seq<char> {
    if f.haswebp matches Some(v) && v != 0 {
        "webp"@
    } else {
        "avif"@
    }
}

fn ext_of(f: &HitomiFileJson) -> (r: &'static str)
    ensures
        r@ == file_ext(*f),
{
    let has = match f.haswebp {
        Some(v) => v,
        None => 0,
    };
    if has != 0 {
        "webp"
    } else {
        "avif"
    }
}

/// The artist names of the credits, in order.
pub open spec fn artist_names(s: Seq<HitomiAuthor>) -> Seq<Seq<char>>
    decreases s.len(),
{
    if s.len() == 0 {
        Seq::empty()
    } else {
        let prev = artist_names(s.drop_last());
        match s.last().artist {
            Some(n) => prev.push(n@),
            None => prev,
        }
    }
}

/// The group names of the credits, in order.
pub open spec fn group_names(s: Seq<HitomiAuthor>) -> Seq<Seq<char>>
    decreases s.len(),
{
    if s.len() == 0 {
        Seq::empty()
    } else {
        let prev = group_names(s.drop_last());
        match s.last().group {
            Some(n) => prev.push(n@),
            None => prev,
        }
    }
}

/// A gallery's credits: its artists, then its groups.
pub open spec fn gallery_authors(d: HitomiGalleryJson) -> Seq<Seq<char>> {
    (match d.artists {
        Some(a) => artist_names(a@),
        None => Seq::empty(),
    }) + (match d.groups {
        Some(g) => group_names(g@),
        None => Seq::empty(),
    })
}

/// The id prefix of a gendered tag.
pub open spec fn tag_prefix(t: HitomiTagJson) -> Seq<char> {
    if t.male is Some {
        "male:"@
    } else if t.female is Some {
        "female:"@
    } else {
        Seq::empty()
    }
}

/// A gallery's tags as `(id, label)`: the id carries the gender prefix, the
/// label is the bare name; entries without a name are skipped.
pub open spec fn gallery_tag_list(s: Seq<HitomiTagJson>) -> Seq<(Seq<char>, Seq<char>)>
    decreases s.len(),
{
    if s.len() == 0 {
        Seq::empty()
    } else {
        let prev = gallery_tag_list(s.drop_last());
        match s.last().tag {
            Some(n) => prev.push((tag_prefix(s.last()) + n@, n@)),
            None => prev,
        }
    }
}

/// A gallery's title, or `Gallery <id>` when it has none.
pub open spec fn gallery_title(id: Seq<char>, d: HitomiGalleryJson) -> Seq<char> {
    match d.title {
        Some(t) => t@,
        None => "Gallery "@ + id,
    }
}

/// The site icon, shown when a gallery's cover cannot be had.
pub open spec fn default_cover() -> Seq<char> {
    "https://hitomi.la/favicon.ico"@
}

/// A gallery's cover: the big thumbnail of its first file when a router is
/// at hand and that file has a hash, else the site icon.
pub open spec fn gallery_cover(d: HitomiGalleryJson, resolver: Option<&HitomiResolver>) -> Seq<
    char,
> {
    match (resolver, d.files) {
        (Some(r), Some(fs)) => if fs@.len() > 0 {
            match fs@[0].hash {
                Some(h) => r.uri(h@, file_ext(fs@[0]), true, false),
                None => default_cover(),
            }
        } else {
            default_cover()
        },
        _ => default_cover(),
    }
}

/// A file without a hash, or with one the router can read.
pub open spec fn file_hash_ok(f: HitomiFileJson) -> bool {
    match f.hash {
        Some(h) => hash_splits_of(h@),
        None => true,
    }
}

/// What the cover needs of the first file's hash: that the router can read
/// it.
pub open spec fn cover_hash_ok(d: HitomiGalleryJson, resolver: Option<&HitomiResolver>) -> bool {
    match (resolver, d.files) {
        (Some(_), Some(fs)) => fs@.len() > 0 ==> file_hash_ok(fs@[0]),
        _ => true,
    }
}

fn authors_of(d: &HitomiGalleryJson) -> (r: Vec<String>)
    ensures
        strings_view(r@) == gallery_authors(*d),
{
    let mut out: Vec<String> = Vec::new();
    let ghost empty: Seq<Seq<char>> = Seq::empty();
    let ghost arts = match &d.artists {
        Some(a) => artist_names(a@),
        None => empty,
    };
    if let Some(arts_v) = &d.artists {
        let mut i: usize = 0;
        while i < arts_v.len()
            invariant
                i <= arts_v@.len(),
                strings_view(out@) == artist_names(arts_v@.take(i as int)),
            decreases arts_v@.len() - i,
        {
            assert(arts_v@.take(i + 1).drop_last() =~= arts_v@.take(i as int));
            let ghost before = out@;
            if let Some(n) = &arts_v[i].artist {
                out.push(n.clone());
                assert(strings_view(out@) =~= strings_view(before).push(n@));
            }
            i += 1;
        }
        assert(arts_v@.take(arts_v@.len() as int) =~= arts_v@);
    }
    assert(strings_view(out@) == arts);
    let ghost mid = out@;
    if let Some(grps) = &d.groups {
        let mut i: usize = 0;
        while i < grps.len()
            invariant
                i <= grps@.len(),
                strings_view(out@) == strings_view(mid) + group_names(grps@.take(i as int)),
            decreases grps@.len() - i,
        {
            assert(grps@.take(i + 1).drop_last() =~= grps@.take(i as int));
            let ghost before = out@;
            if let Some(n) = &grps[i].group {
                out.push(n.clone());
                assert(strings_view(out@) =~= strings_view(before).push(n@));
            }
            i += 1;
        }
        assert(grps@.take(grps@.len() as int) =~= grps@);
    } else {
        assert(strings_view(out@) =~= strings_view(mid) + empty);
    }
    out
}

fn tags_of(d: &HitomiGalleryJson) -> (r: Vec<Tag>)
    ensures
        tag_pairs(r@) == match d.tags {
            Some(t) => gallery_tag_list(t@),
            None => Seq::empty(),
        },
{
    let mut out: Vec<Tag> = Vec::new();
    if let Some(list) = &d.tags {
        let mut i: usize = 0;
        while i < list.len()
            invariant
                i <= list@.len(),
                tag_pairs(out@) == gallery_tag_list(list@.take(i as int)),
            decreases list@.len() - i,
        {
            assert(list@.take(i + 1).drop_last() =~= list@.take(i as int));
            let t = &list[i];
            let ghost before = out@;
            if let Some(name) = &t.tag {
                let prefix = if t.male.is_some() {
                    "male:"
                } else if t.female.is_some() {
                    "female:"
                } else {
                    ""
                };
                proof {
                    reveal_strlit("");
                }
                let mut id = chars_of(prefix);
                push_str(&mut id, name.as_str());
                out.push(Tag { id: string_of(&id), label: name.clone() });
                assert(tag_pairs(out@) =~= tag_pairs(before).push((tag_prefix(*t) + name@, name@)));
            }
            i += 1;
        }
        assert(list@.take(list@.len() as int) =~= list@);
    } else {
        assert(tag_pairs(out@) =~= Seq::<(Seq<char>, Seq<char>)>::empty());
    }
    out
}

fn cover_of(d: &HitomiGalleryJson, resolver: Option<&HitomiResolver>) -> (r: String)
    requires
        cover_hash_ok(*d, resolver),
    ensures
        r@ == gallery_cover(*d, resolver),
{
    if let Some(res) = resolver {
        if let Some(files) = &d.files {
            if files.len() > 0 {
                let first = &files[0];
                if let Some(hash) = &first.hash {
                    return res.get_image_uri(hash.as_str(), ext_of(first), true, false);
                }
            }
        }
    }
    owned("https://hitomi.la/favicon.ico")
}

/// The manga a gallery script describes: its title (or `Gallery <id>`), its
/// artists and groups as both authors and artists, its tags, its cover,
/// and its date; a gallery is always complete.
pub fn gallery_manga(id: &str, data: &HitomiGalleryJson, resolver: Option<&HitomiResolver>) -> (r:
    Manga)
    requires
        cover_hash_ok(*data, resolver),
    ensures
        r.id@ == id@,
        r.title@ == gallery_title(id@, *data),
        r.description@.len() == 0,
        tag_pairs(r.tags@) == match data.tags {
            Some(t) => gallery_tag_list(t@),
            None => Seq::empty(),
        },
        r.cover_url@ == gallery_cover(*data, resolver),
        strings_view(r.author@) == gallery_authors(*data),
        strings_view(r.artist@) == gallery_authors(*data),
        r.status == Status::Completed,
        r.last_updated@ == match data.date {
            Some(d) => d@,
            None => Seq::empty(),
        },
        r.rating is None,
        r.views is None,
{
    let title = match &data.title {
        Some(t) => t.clone(),
        None => {
            let mut v = chars_of("Gallery ");
            push_str(&mut v, id);
            string_of(&v)
        },
    };
    let authors = authors_of(data);
    let mut artists: Vec<String> = Vec::new();
    let mut i: usize = 0;
    while i < authors.len()
        invariant
            i <= authors@.len(),
            strings_view(artists@) == strings_view(authors@).take(i as int),
        decreases authors@.len() - i,
    {
        let ghost before = artists@;
        let c = authors[i].clone();
        artists.push(c);
        assert(strings_view(artists@) =~= strings_view(before).push(authors@[i as int]@));
        assert(strings_view(authors@).take(i + 1) =~= strings_view(authors@).take(i as int).push(
            authors@[i as int]@,
        ));
        i += 1;
    }
    assert(strings_view(authors@).take(authors@.len() as int) =~= strings_view(authors@));
    let last_updated = match &data.date {
        Some(d) => d.clone(),
        None => String::new(),
    };
    Manga {
        id: owned(id),
        title,
        description: String::new(),
        tags: tags_of(data),
        cover_url: cover_of(data, resolver),
        author: artists,
        artist: authors,
        status: Status::Completed,
        last_updated,
        rating: None,
        views: None,
    }
}

/// A gallery is read as one chapter, `Oneshot`, linking to its page.
pub fn oneshot_chapter(manga_id: &str) -> (r: Chapter)
    ensures
        r.id@ == manga_id@,
        r.title@ == "Oneshot"@,
        r.manga_id@ == manga_id@,
        r.number@ == "1"@,
        r.language@ == "multi"@,
        r.upload_date@.len() == 0,
        r.page_count is None,
        r.scanlator is None,
        r.url@ == "https://hitomi.la/galleries/"@ + manga_id@ + ".html"@,
        !r.is_locked,
{
    let mut url = chars_of("https://hitomi.la/galleries/");
    push_str(&mut url, manga_id);
    push_str(&mut url, ".html");
    Chapter {
        id: owned(manga_id),
        title: owned("Oneshot"),
        manga_id: owned(manga_id),
        number: owned("1"),
        language: owned("multi"),
        upload_date: String::new(),
        page_count: None,
        scanlator: None,
        url: string_of(&url),
        is_locked: false,
    }
}

/// The pages of the files with a hash, numbered by the file's position
/// (as a `u32`).
pub open spec fn gallery_page_list(files: Seq<HitomiFileJson>, r: HitomiResolver) -> Seq<
    (u32, Seq<char>),
>
    decreases files.len(),
{
    if files.len() == 0 {
        Seq::empty()
    } else {
        let prev = gallery_page_list(files.drop_last(), r);
        let i = files.len() - 1;
        match files.last().hash {
            Some(h) => prev.push((i as u32, r.uri(h@, file_ext(files.last()), false, false))),
            None => prev,
        }
    }
}

/// Every file hash the router can read.
pub open spec fn file_hashes_ok(d: HitomiGalleryJson) -> bool {
    match d.files {
        Some(fs) => forall|i: int| 0 <= i < fs@.len() ==> file_hash_ok(#[trigger] fs@[i]),
        None => true,
    }
}

/// The views of pages as `(number, image URL)`.
pub open spec fn pages_view(v: Seq<Page>) -> Seq<(u32, Seq<char>)> {
    v.map_values(|p: Page| (p.number, p.image_url@))
}

/// The pages of a gallery: the full image of every file with a hash.
pub fn gallery_pages(data: &HitomiGalleryJson, resolver: &HitomiResolver) -> (r: Vec<Page>)
    requires
        file_hashes_ok(*data),
    ensures
        pages_view(r@) == match data.files {
            Some(fs) => gallery_page_list(fs@, *resolver),
            None => Seq::empty(),
        },
{
    let mut pages: Vec<Page> = Vec::new();
    if let Some(files) = &data.files {
        assert(forall|k: int| 0 <= k < files@.len() ==> file_hash_ok(#[trigger] files@[k]));
        let mut i: usize = 0;
        while i < files.len()
            invariant
                i <= files@.len(),
                forall|k: int| 0 <= k < files@.len() ==> file_hash_ok(#[trigger] files@[k]),
                pages_view(pages@) == gallery_page_list(files@.take(i as int), *resolver),
            decreases files@.len() - i,
        {
            assert(files@.take(i + 1).drop_last() =~= files@.take(i as int));
            let f = &files[i];
            let ghost before = pages@;
            if let Some(hash) = &f.hash {
                assert(file_hash_ok(files@[i as int]));
                let image_url = resolver.get_image_uri(hash.as_str(), ext_of(f), false, false);
                let number = #[verifier::truncate] (i as u32);
                pages.push(Page { number, image_url });
                assert(pages_view(pages@) =~= pages_view(before).push((number, image_url@)));
            }
            i += 1;
        }
        assert(files@.take(files@.len() as int) =~= files@);
    } else {
        assert(pages_view(pages@) =~= Seq::<(u32, Seq<char>)>::empty());
    }
    pages
}


/// The settings table: `(key, label, kind, help text, options)`.
pub open spec fn settings_table() -> Seq<(Seq<char>, Seq<char>, SettingKind, Seq<char>, Seq<(Seq<char>, Seq<char>)>)> {
    seq![
        ("language"@, "Preferred Language"@, SettingKind::Select, "Filter the homepage and search results by language."@, seq![("all"@, "All"@), ("english"@, "English"@), ("japanese"@, "Japanese"@), ("chinese"@, "Chinese"@), ("korean"@, "Korean"@), ("spanish"@, "Spanish"@)]),
    ]
}

/// The preferred language, a select.
pub fn settings() -> (r: Vec<Setting>)
    ensures
        r@.map_values(|s: Setting| setting_view(s)) == settings_table(),
{
    let pairs0 = [("all", "All"), ("english", "English"), ("japanese", "Japanese"), ("chinese", "Chinese"), ("korean", "Korean"), ("spanish", "Spanish")];
    let options0 = option_list(&pairs0);
    assert(pairs0@.map_values(|p: (&str, &str)| (p.0@, p.1@)) =~= settings_table()[0].4);
    let s0 = setting("language", "Preferred Language", SettingKind::Select, "Filter the homepage and search results by language.", options0);
    let r = vec![s0];
    assert(r@.map_values(|s: Setting| setting_view(s)) =~= settings_table());
    r
}

/// The search filters: the query, and the popular tags when there are any.
pub open spec fn filters_table(tags: Seq<(Seq<char>, Seq<char>)>) -> Seq<
    (Seq<char>, Seq<char>, FilterKind, Seq<(Seq<char>, Seq<char>)>, Option<Seq<char>>, Option<Seq<char>>, bool),
> {
    let query = ("query"@, "Search (e.g. female:elf male:orc)"@, FilterKind::Text, Seq::empty(), None, None, false);
    if tags.len() == 0 {
        seq![query]
    } else {
        seq![query, ("tags"@, "Popular Tags"@, FilterKind::MultiSelect, tags, None, None, false)]
    }
}

/// The search filters over the given popular tags.
pub fn filters(tags: Vec<SelectOption>) -> (r: Vec<Filter>)
    ensures
        filters_view(r@) == filters_table(tags@.map_values(|o: SelectOption| o@)),
{
    let ghost tv = tags@.map_values(|o: SelectOption| o@);
    let query = text_filter("query", "Search (e.g. female:elf male:orc)", None);
    if tags.len() == 0 {
        let r = vec![query];
        assert(filters_view(r@) =~= filters_table(tv));
        r
    } else {
        let r = vec![query, choice_filter("tags", "Popular Tags", FilterKind::MultiSelect, tags, None, false)];
        assert(filters_view(r@) =~= filters_table(tv));
        r
    }
}

/// The `(id, title, cover)` of every gallery that was found, in order.
pub open spec fn found_cards(row: Seq<Option<Manga>>) -> Seq<(Seq<char>, Seq<char>, Seq<char>)>
    decreases row.len(),
{
    if row.len() == 0 {
        Seq::empty()
    } else {
        let prev = found_cards(row.drop_last());
        match row.last() {
            Some(m) => prev.push((m.id@, m.title@, m.cover_url@)),
            None => prev,
        }
    }
}

/// The `(id, title, cover)` of each card.
pub open spec fn card_triples(items: Seq<MangaSimple>) -> Seq<(Seq<char>, Seq<char>, Seq<char>)> {
    items.map_values(|c: MangaSimple| (c.id@, c.title@, c.cover_url@))
}

/// The cards of the galleries of a row that were found; a lookup that
/// failed (`None`) is skipped.
pub fn row_cards(row: Vec<Option<Manga>>) -> (r: Vec<MangaSimple>)
    ensures
        card_triples(r@) == found_cards(row@),
        forall|k: int| 0 <= k < r@.len() ==> (#[trigger] r@[k]).description is None,
{
    let ghost all = row@;
    let n = row.len();
    let mut rest = row;
    let mut out: Vec<MangaSimple> = Vec::new();
    let mut j: usize = 0;
    while j < n
        invariant
            n == all.len(),
            j <= n,
            rest@ == all.skip(j as int),
            card_triples(out@) == found_cards(all.take(j as int)),
            forall|k: int| 0 <= k < out@.len() ==> (#[trigger] out@[k]).description is None,
        decreases n - j,
    {
        let entry = rest.remove(0);
        assert(entry == all[j as int]);
        assert(all.take(j + 1).drop_last() =~= all.take(j as int));
        let ghost before = out@;
        match entry {
            Some(m) => {
                out.push(manga_card(m));
                assert(card_triples(out@) =~= card_triples(before).push(
                    (out@.last().id@, out@.last().title@, out@.last().cover_url@),
                ));
            },
            None => {},
        }
        assert(rest@ =~= all.skip(j + 1));
        j += 1;
    }
    assert(all.take(n as int) =~= all);
    out
}

/// The homepage rows: `(id, title, layout)`, each paginable.
pub open spec fn homepage_table() -> Seq<(Seq<char>, Seq<char>, SectionLayout)> {
    seq![
        ("latest"@, "Latest Updates"@, SectionLayout::TripleRow),
        ("popular_today"@, "Popular Today"@, SectionLayout::SingleRow),
        ("popular_week"@, "Popular This Week"@, SectionLayout::SingleRow),
    ]
}

/// The homepage from the galleries looked up for each of its three rows (in
/// the order of `homepage_sections`; a row whose id list could not be read
/// is empty): every row is kept, paginable, with the cards of the galleries
/// that were found.
pub fn homepage(rows: Vec<Vec<Option<Manga>>>) -> (r: Vec<HomepageSection>)
    requires
        rows@.len() == 3,
    ensures
        r@.len() == 3,
        forall|i: int|
            0 <= i < 3 ==> section_head(#[trigger] r@[i]) == (
                homepage_table()[i].0,
                homepage_table()[i].1,
                homepage_table()[i].2,
                true,
            ),
        forall|i: int| 0 <= i < 3 ==> card_triples((#[trigger] r@[i]).items@) == found_cards(rows@[i]@),
        forall|i: int, k: int|
            0 <= i < 3 && 0 <= k < r@[i].items@.len() ==> (#[trigger] r@[i].items@[k]).description is None,
{
    let heads = [
        ("latest", "Latest Updates", SectionLayout::TripleRow),
        ("popular_today", "Popular Today", SectionLayout::SingleRow),
        ("popular_week", "Popular This Week", SectionLayout::SingleRow),
    ];
    assert(heads@.map_values(|h: (&str, &str, SectionLayout)| (h.0@, h.1@, h.2)) =~= homepage_table());
    let ghost all = rows@;
    let mut rest = rows;
    let mut out: Vec<HomepageSection> = Vec::new();
    let mut i: usize = 0;
    while i < 3
        invariant
            i <= 3,
            heads@.map_values(|h: (&str, &str, SectionLayout)| (h.0@, h.1@, h.2)) == homepage_table(),
            all.len() == 3,
            rest@ == all.skip(i as int),
            out@.len() == i,
            forall|k: int|
                0 <= k < i ==> section_head(#[trigger] out@[k]) == (
                    homepage_table()[k].0,
                    homepage_table()[k].1,
                    homepage_table()[k].2,
                    true,
                ),
            forall|k: int| 0 <= k < i ==> card_triples((#[trigger] out@[k]).items@) == found_cards(all[k]@),
            forall|k: int, m: int|
                0 <= k < i && 0 <= m < out@[k].items@.len() ==> (#[trigger] out@[k].items@[m]).description
                    is None,
        decreases 3 - i,
    {
        let row = rest.remove(0);
        assert(row == all[i as int]);
        let items = row_cards(row);
        let (id, title, layout) = heads[i];
        assert((id@, title@, layout) == homepage_table()[i as int]);
        out.push(HomepageSection { id: owned(id), title: owned(title), layout, items, paginable: true });
        assert(rest@ =~= all.skip(i + 1));
        i += 1;
    }
    out
}

/// A gallery's own title is the manga's title, whatever its id; only a
/// gallery without a title is called `Gallery <id>`.
pub proof fn lemma_gallery_title_is_its_own(id: Seq<char>, other: Seq<char>, d: HitomiGalleryJson)
    ensures
        d.title matches Some(t) ==> gallery_title(id, d) == t@ && gallery_title(other, d) == gallery_title(id, d),
        d.title is None ==> gallery_title(id, d) == "Gallery "@ + id,
{
}

proof fn lemma_tag_list_concat(a: Seq<HitomiTagJson>, b: Seq<HitomiTagJson>)
    ensures
        gallery_tag_list(a + b) == gallery_tag_list(a) + gallery_tag_list(b),
    decreases b.len(),
{
    if b.len() == 0 {
        assert(a + b =~= a);
        assert(gallery_tag_list(a) + gallery_tag_list(b) =~= gallery_tag_list(a));
    } else {
        lemma_tag_list_concat(a, b.drop_last());
        assert((a + b).drop_last() =~= a + b.drop_last());
        assert((a + b).last() == b.last());
        let x = gallery_tag_list(a);
        let y = gallery_tag_list(b.drop_last());
        match b.last().tag {
            Some(n) => {
                let e = (tag_prefix(b.last()) + n@, n@);
                assert((x + y).push(e) =~= x + y.push(e));
            },
            None => {},
        }
    }
}

/// A gallery's tags are its named entries, in order: tags of a longer list
/// are those of its parts one after the other, and an entry named `n` is
/// the tag labelled `n` whose id is `male:n` when it is flagged male,
/// `female:n` when flagged female (and not male), and `n` otherwise; an
/// entry without a name gives no tag.
pub proof fn lemma_gallery_tags(a: Seq<HitomiTagJson>, b: Seq<HitomiTagJson>, t: HitomiTagJson)
    ensures
        gallery_tag_list(a + b) == gallery_tag_list(a) + gallery_tag_list(b),
        gallery_tag_list(seq![t]) == match t.tag {
            Some(n) => seq![
                (if t.male is Some {
                    "male:"@ + n@
                } else if t.female is Some {
                    "female:"@ + n@
                } else {
                    n@
                }, n@),
            ],
            None => Seq::empty(),
        },
{
    lemma_tag_list_concat(a, b);
    let one = seq![t];
    assert(one.drop_last() =~= Seq::<HitomiTagJson>::empty());
    assert(one.last() == t);
    assert(gallery_tag_list(Seq::<HitomiTagJson>::empty()) == Seq::<(Seq<char>, Seq<char>)>::empty());
    if let Some(n) = t.tag {
        assert(Seq::<char>::empty() + n@ =~= n@);
        let e = (tag_prefix(t) + n@, n@);
        assert(Seq::<(Seq<char>, Seq<char>)>::empty().push(e) =~= seq![e]);
    }
}

proof fn lemma_artists_concat(a: Seq<HitomiAuthor>, b: Seq<HitomiAuthor>)
    ensures
        artist_names(a + b) == artist_names(a) + artist_names(b),
        group_names(a + b) == group_names(a) + group_names(b),
    decreases b.len(),
{
    if b.len() == 0 {
        assert(a + b =~= a);
        assert(artist_names(a) + artist_names(b) =~= artist_names(a));
        assert(group_names(a) + group_names(b) =~= group_names(a));
    } else {
        lemma_artists_concat(a, b.drop_last());
        assert((a + b).drop_last() =~= a + b.drop_last());
        assert((a + b).last() == b.last());
        if let Some(n) = b.last().artist {
            assert((artist_names(a) + artist_names(b.drop_last())).push(n@) =~= artist_names(a)
                + artist_names(b.drop_last()).push(n@));
        }
        if let Some(n) = b.last().group {
            assert((group_names(a) + group_names(b.drop_last())).push(n@) =~= group_names(a)
                + group_names(b.drop_last()).push(n@));
        }
    }
}

/// The credits are every named artist, then every named group, in order:
/// names of a longer list are those of its parts one after the other, and
/// an entry contributes its artist (or group) name when it has one.
pub proof fn lemma_gallery_credits(a: Seq<HitomiAuthor>, b: Seq<HitomiAuthor>, x: HitomiAuthor, d: HitomiGalleryJson)
    ensures
        artist_names(a + b) == artist_names(a) + artist_names(b),
        group_names(a + b) == group_names(a) + group_names(b),
        artist_names(seq![x]) == match x.artist {
            Some(n) => seq![n@],
            None => Seq::empty(),
        },
        group_names(seq![x]) == match x.group {
            Some(n) => seq![n@],
            None => Seq::empty(),
        },
        d.artists is None && d.groups is None ==> gallery_authors(d).len() == 0,
        d.artists matches Some(v) ==> gallery_authors(d).take(artist_names(v@).len() as int) == artist_names(v@),
{
    lemma_artists_concat(a, b);
    let one = seq![x];
    assert(one.drop_last() =~= Seq::<HitomiAuthor>::empty());
    assert(one.last() == x);
    assert(artist_names(Seq::<HitomiAuthor>::empty()) == Seq::<Seq<char>>::empty());
    assert(group_names(Seq::<HitomiAuthor>::empty()) == Seq::<Seq<char>>::empty());
    if let Some(n) = x.artist {
        assert(Seq::<Seq<char>>::empty().push(n@) =~= seq![n@]);
    }
    if let Some(n) = x.group {
        assert(Seq::<Seq<char>>::empty().push(n@) =~= seq![n@]);
    }
    if let Some(v) = d.artists {
        let g = match d.groups {
            Some(g) => group_names(g@),
            None => Seq::empty(),
        };
        assert((artist_names(v@) + g).take(artist_names(v@).len() as int) =~= artist_names(v@));
    }
}

} // verus!
