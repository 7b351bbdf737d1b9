//! The E-Hentai source's decisions: section URLs, search URLs, the member
//! session, request budgets, metadata to manga, the single chapter, walking
//! a gallery's image keys, and turning `showpage` answers into pages.
use vstd::prelude::*;
use crate::model::{
    Chapter, Filter, FilterKind, HomepageSection, Manga, MangaSimple, Page, RateLimit,
    SectionLayout, SelectOption, Setting, SettingKind, SourceError, SourceInfo, SourceMethod,
    Status, Tag, choice_filter, filters_view, info_view, is_not_found, is_parse_error, option_list,
    section_head, setting, setting_view, source_info, tag_pairs, text_filter,
};
use crate::sources::ehentai::api::{GDataRequest, GDataResponse, ShowPageRequest, ShowPageResponse};
use crate::sources::ehentai::parse::{
    add_key, ascending_pages, file_count_of, has_page, image_keys_of, image_src_of, insert_key,
    keys_view, label_of, malformed_id_message, mpv_keys_of, namespace_of, parse_file_count,
    parse_image_keys, parse_image_src, parse_mpv_keys, parse_showkey, showkey_of, split_id,
    split_id_of, tag_label, tag_namespace,
};
use crate::text::{
    chars_of, dec, dec_chars, opt_string, owned, push_all, push_str, str_eq, string_of, strings_view,
    trim, trim_str,
};

verus! {

/// E-Hentai's declaration: `org.ehentai`, reaching the site, its API, the
/// thumbnail host and the image nodes.
pub fn info() -> (r: SourceInfo)
    ensures
        info_view(r) == (
            "org.ehentai"@,
            "E-Hentai"@,
            "1.0"@,
            "multi"@,
            base_url(),
            seq!["e-hentai.org"@, "api.e-hentai.org"@, "ehgt.org"@, "*.hath.network"@],
            true,
        ),
{
    let hosts = vec!["e-hentai.org", "api.e-hentai.org", "ehgt.org", "*.hath.network"];
    let r = source_info("org.ehentai", "E-Hentai", "1.0", "multi", "https://e-hentai.org", hosts, true);
    assert(hosts@.map_values(|h: &str| h@) =~= seq!["e-hentai.org"@, "api.e-hentai.org"@, "ehgt.org"@, "*.hath.network"@]);
    r
}

/// The site root.
pub open spec fn base_url() -> Seq<char> {
    "https://e-hentai.org"@
}

// ---------------------------------------------------------------------------
// Sections
// ---------------------------------------------------------------------------

/// The listing URL of a homepage section: `latest` is the front page,
/// `popular` the live popular list.
pub open spec fn section_url_of(id: Seq<char>) -> Option<Seq<char>> {
    if id == "latest"@ {
        Some("https://e-hentai.org/"@)
    } else if id == "popular"@ {
        Some("https://e-hentai.org/popular"@)
    } else {
        None
    }
}

/// The listing URL of a section, or a parse error naming an unknown one.
pub fn section_url(id: &str) -> (r: Result<String, SourceError>)
    ensures
        r matches Ok(u) ==> section_url_of(id@) == Some(u@),
        r matches Err(e) ==> section_url_of(id@) is None && is_parse_error(
            e,
            "unknown section "@ + id@,
        ),
{
    if str_eq(id, "latest") {
        Ok(owned("https://e-hentai.org/"))
    } else if str_eq(id, "popular") {
        Ok(owned("https://e-hentai.org/popular"))
    } else {
        let mut v = chars_of("unknown section ");
        push_str(&mut v, id);
        Err(SourceError::Parse { message: string_of(&v) })
    }
}

/// Whether a homepage section can be paged: `/popular` is a live snapshot
/// with no pager of its own.
pub fn section_is_paginable(id: &str) -> (r: bool)
    ensures
        r == (id@ != "popular"@),
{
    !str_eq(id, "popular")
}

/// The homepage sections, in order: id, title and layout.
pub fn homepage_sections() -> (r: Vec<(&'static str, &'static str, SectionLayout)>)
    ensures
        r@.len() == 2,
        r@[0].0@ == "latest"@ && r@[0].1@ == "Latest"@ && r@[0].2 == SectionLayout::TripleRow,
        r@[1].0@ == "popular"@ && r@[1].1@ == "Popular Now"@ && r@[1].2
            == SectionLayout::SingleRow,
{
    vec![("latest", "Latest", SectionLayout::TripleRow), ("popular", "Popular Now", SectionLayout::SingleRow)]
}

// ---------------------------------------------------------------------------
// Session and budgets
// ---------------------------------------------------------------------------

/// The cookie that carries one half of the member session.
pub open spec fn session_cookie(name: Seq<char>, value: Seq<char>) -> Seq<char> {
    name + "="@ + trim(value) + "; Domain=.e-hentai.org; Path=/"@
}

/// The two session cookies to put in the host jar, when both halves are set.
///
/// E-Hentai has no API key: a session is the pair of cookies the forum login
/// hands a browser. They go into the host jar rather than onto each request
/// so that image fetches carry them too.
pub fn session_cookies(member_id: &str, pass_hash: &str) -> (r: Option<Vec<String>>)
    ensures
        r is None <==> (trim(member_id@).len() == 0 || trim(pass_hash@).len() == 0),
        r matches Some(v) ==> v@.len() == 2 && v@[0]@ == session_cookie(
            "ipb_member_id"@,
            member_id@,
        ) && v@[1]@ == session_cookie("ipb_pass_hash"@, pass_hash@),
{
    let m = trim_str(member_id);
    let p = trim_str(pass_hash);
    if m.as_str().is_empty() || p.as_str().is_empty() {
        return None;
    }
    let mut a = chars_of("ipb_member_id=");
    push_str(&mut a, m.as_str());
    push_str(&mut a, "; Domain=.e-hentai.org; Path=/");
    let mut b = chars_of("ipb_pass_hash=");
    push_str(&mut b, p.as_str());
    push_str(&mut b, "; Domain=.e-hentai.org; Path=/");
    let mut v: Vec<String> = Vec::new();
    v.push(string_of(&a));
    v.push(string_of(&b));
    proof {
        reveal_strlit("ipb_member_id=");
        reveal_strlit("ipb_member_id");
        reveal_strlit("ipb_pass_hash=");
        reveal_strlit("ipb_pass_hash");
        reveal_strlit("=");
        assert("ipb_member_id="@ =~= "ipb_member_id"@ + "="@);
        assert("ipb_pass_hash="@ =~= "ipb_pass_hash"@ + "="@);
    }
    Some(v)
}

/// The per-method budgets: E-Hentai bans clients that hammer it, and
/// `pages` is unavoidably request-heavy, so it gets the tightest budget.
pub open spec fn budget(method: SourceMethod) -> u32 {
    match method {
        SourceMethod::Homepage => 10,
        SourceMethod::Search => 20,
        SourceMethod::Section => 20,
        SourceMethod::Manga => 30,
        SourceMethod::Chapters => 60,
        SourceMethod::Pages => 4,
    }
}

/// One rate limit per host method, at its budget.
pub fn rate_limits() -> (r: Vec<RateLimit>)
    ensures
        r@.len() == 6,
        r@[0].method == SourceMethod::Homepage,
        r@[1].method == SourceMethod::Search,
        r@[2].method == SourceMethod::Section,
        r@[3].method == SourceMethod::Manga,
        r@[4].method == SourceMethod::Chapters,
        r@[5].method == SourceMethod::Pages,
        forall|i: int| 0 <= i < 6 ==> (#[trigger] r@[i]).per_minute == budget(r@[i].method),
{
    vec![
        RateLimit { method: SourceMethod::Homepage, per_minute: 10 },
        RateLimit { method: SourceMethod::Search, per_minute: 20 },
        RateLimit { method: SourceMethod::Section, per_minute: 20 },
        RateLimit { method: SourceMethod::Manga, per_minute: 30 },
        RateLimit { method: SourceMethod::Chapters, per_minute: 60 },
        RateLimit { method: SourceMethod::Pages, per_minute: 4 },
    ]
}

/// `pages` has the strictly tightest budget of all methods.
pub proof fn lemma_pages_budget_is_tightest(method: SourceMethod)
    ensures
        method != SourceMethod::Pages ==> budget(SourceMethod::Pages) < budget(method),
{
}

// ---------------------------------------------------------------------------
// Search
// ---------------------------------------------------------------------------

/// Every category bit set. E-Hentai's `f_cats` is an exclusion mask, so
/// showing only one category means masking off the other nine.
pub open spec fn all_categories() -> u32 {
    1023
}

/// The categories and their bits.
pub open spec fn category_bits() -> Seq<(Seq<char>, u32)> {
    seq![
        ("misc"@, 1u32),
        ("doujinshi"@, 2u32),
        ("manga"@, 4u32),
        ("artistcg"@, 8u32),
        ("gamecg"@, 16u32),
        ("imageset"@, 32u32),
        ("cosplay"@, 64u32),
        ("asianporn"@, 128u32),
        ("non-h"@, 256u32),
        ("western"@, 512u32),
    ]
}

/// The sum of the bits of the first `n` categories that `included` names.
pub open spec fn wanted_bits(included: Seq<Seq<char>>, n: int) -> int
    decreases n,
{
    if n <= 0 {
        0
    } else {
        wanted_bits(included, n - 1) + if included.contains(category_bits()[n - 1].0) {
            category_bits()[n - 1].1 as int
        } else {
            0
        }
    }
}

/// The `f_cats` exclusion mask for a set of wanted categories; none when no
/// category is chosen.
pub open spec fn category_mask(included: Seq<Seq<char>>) -> Option<u32> {
    if included.len() == 0 {
        None
    } else {
        Some((all_categories() - wanted_bits(included, 10)) as u32)
    }
}

/// The sum of the bits of the first `n` categories.
spec fn full_bits(n: int) -> int
    decreases n,
{
    if n <= 0 {
        0
    } else {
        full_bits(n - 1) + category_bits()[n - 1].1 as int
    }
}

proof fn lemma_wanted_bits_bound(included: Seq<Seq<char>>, n: int)
    requires
        0 <= n <= 10,
    ensures
        0 <= wanted_bits(included, n) <= full_bits(n) <= full_bits(10),
        full_bits(10) == 1023,
    decreases 10 - n,
{
    reveal_with_fuel(full_bits, 11);
    lemma_wanted_below_full(included, n);
    if n < 10 {
        lemma_wanted_bits_bound(included, n + 1);
        assert(full_bits(n + 1) == full_bits(n) + category_bits()[n].1 as int);
    }
}

proof fn lemma_wanted_below_full(included: Seq<Seq<char>>, n: int)
    requires
        0 <= n <= 10,
    ensures
        0 <= wanted_bits(included, n) <= full_bits(n),
    decreases n,
{
    if n > 0 {
        lemma_wanted_below_full(included, n - 1);
    }
}

/// No two categories share a name.
proof fn lemma_category_names_distinct(j: int, k: int)
    requires
        0 <= j < 10,
        0 <= k < 10,
        j != k,
    ensures
        category_bits()[j].0 != category_bits()[k].0,
{
    reveal_strlit("misc");
    reveal_strlit("doujinshi");
    reveal_strlit("manga");
    reveal_strlit("artistcg");
    reveal_strlit("gamecg");
    reveal_strlit("imageset");
    reveal_strlit("cosplay");
    reveal_strlit("asianporn");
    reveal_strlit("non-h");
    reveal_strlit("western");
    let a = category_bits()[j].0;
    let b = category_bits()[k].0;
    if a.len() == b.len() {
        assert(a[0] != b[0]);
    }
}

/// The bits the first `n` categories contribute when only category `k` is
/// wanted: its bit once `n` reaches it.
proof fn lemma_wanted_single(k: int, n: int)
    requires
        0 <= k < 10,
        0 <= n <= 10,
    ensures
        wanted_bits(seq![category_bits()[k].0], n) == if n > k {
            category_bits()[k].1 as int
        } else {
            0
        },
    decreases n,
{
    if n > 0 {
        lemma_wanted_single(k, n - 1);
        let inc = seq![category_bits()[k].0];
        if n - 1 != k {
            lemma_category_names_distinct(n - 1, k);
            assert(!inc.contains(category_bits()[n - 1].0));
        } else {
            assert(inc[0] == category_bits()[n - 1].0);
        }
    }
}

/// Asking for one category masks off exactly the other nine.
pub proof fn lemma_single_category_mask(k: int)
    requires
        0 <= k < 10,
    ensures
        category_mask(seq![category_bits()[k].0]) == Some(
            (all_categories() - category_bits()[k].1) as u32,
        ),
{
    lemma_wanted_single(k, 10);
}

fn list_contains(list: &[String], s: &str) -> (r: bool)
    ensures
        r == strings_view(list@).contains(s@),
{
    let mut i: usize = 0;
    while i < list.len()
        invariant
            i <= list@.len(),
            forall|j: int| 0 <= j < i ==> list@[j]@ != s@,
        decreases list@.len() - i,
    {
        if str_eq(list[i].as_str(), s) {
            assert(strings_view(list@)[i as int] == s@);
            return true;
        }
        i += 1;
    }
    proof {
        if strings_view(list@).contains(s@) {
            let k = choose|k: int| 0 <= k < strings_view(list@).len() && strings_view(list@)[k] == s@;
            assert(list@[k]@ == s@);
        }
    }
    false
}

/// The exclusion mask that shows exactly the chosen categories, or none when
/// no category is chosen.
pub fn category_exclusion(included: &[String]) -> (r: Option<u32>)
    ensures
        r == category_mask(strings_view(included@)),
{
    if included.len() == 0 {
        return None;
    }
    let names = ["misc", "doujinshi", "manga", "artistcg", "gamecg", "imageset", "cosplay", "asianporn", "non-h", "western"];
    let bits: [u32; 10] = [1, 2, 4, 8, 16, 32, 64, 128, 256, 512];
    let ghost inc = strings_view(included@);
    proof {
        assert(names@.len() == 10);
        assert forall|k: int| 0 <= k < 10 implies (#[trigger] names@[k])@ == category_bits()[k].0
            && bits@[k] == category_bits()[k].1 by {
        }
    }
    let mut wanted: u32 = 0;
    let mut i: usize = 0;
    while i < 10
        invariant
            i <= 10,
            names@.len() == 10,
            bits@.len() == 10,
            inc == strings_view(included@),
            forall|k: int| 0 <= k < 10 ==> (#[trigger] names@[k])@ == category_bits()[k].0 && bits@[k]
                == category_bits()[k].1,
            wanted == wanted_bits(inc, i as int),
        decreases 10 - i,
    {
        proof {
            lemma_wanted_bits_bound(inc, (i + 1) as int);
        }
        if list_contains(included, names[i]) {
            wanted = wanted + bits[i];
        }
        i += 1;
    }
    proof {
        lemma_wanted_bits_bound(inc, 10);
    }
    Some(1023 - wanted)
}

/// The uploader term of a search, when an uploader is given.
pub fn uploader_term(uploader: &str) -> (r: Option<String>)
    ensures
        r is None <==> uploader@.len() == 0,
        r matches Some(t) ==> t@ == "uploader:"@ + uploader@,
{
    if uploader.is_empty() {
        None
    } else {
        let mut v = chars_of("uploader:");
        push_str(&mut v, uploader);
        Some(string_of(&v))
    }
}

/// The listing URL of a search: the encoded term, the category mask when
/// categories are chosen, and the encoded uploader term when given.
pub open spec fn search_url_of(
    term: Seq<char>,
    included: Seq<Seq<char>>,
    uploader: Option<Seq<char>>,
) -> Seq<char> {
    let base = "https://e-hentai.org/?f_search="@ + term;
    let with_cats = match category_mask(included) {
        Some(m) => base + "&f_cats="@ + dec(m as nat),
        None => base,
    };
    match uploader {
        Some(u) => with_cats + "&f_search="@ + u,
        None => with_cats,
    }
}

/// The listing URL of a search; `encoded_term` and `encoded_uploader` are
/// already URL-encoded.
pub fn search_url(
    encoded_term: &str,
    included: &[String],
    encoded_uploader: Option<&str>,
) -> (r: String)
    ensures
        r@ == search_url_of(
            encoded_term@,
            strings_view(included@),
            match encoded_uploader {
                Some(u) => Some(u@),
                None => None,
            },
        ),
{
    let mut v = chars_of("https://e-hentai.org/?f_search=");
    push_str(&mut v, encoded_term);
    match category_exclusion(included) {
        Some(m) => {
            push_str(&mut v, "&f_cats=");
            let d = dec_chars(m as u64);
            push_all(&mut v, &d);
        },
        None => {},
    }
    match encoded_uploader {
        Some(u) => {
            push_str(&mut v, "&f_search=");
            push_str(&mut v, u);
        },
        None => {},
    }
    string_of(&v)
}

// ---------------------------------------------------------------------------
// Gallery metadata
// ---------------------------------------------------------------------------

/// The labels of the tags in namespace `namespace`, in order.
pub open spec fn tags_in_of(tags: Seq<Seq<char>>, namespace: Seq<char>) -> Seq<Seq<char>>
    decreases tags.len(),
{
    if tags.len() == 0 {
        Seq::empty()
    } else {
        let prev = tags_in_of(tags.drop_last(), namespace);
        if namespace_of(tags.last()) == namespace {
            prev.push(label_of(tags.last()))
        } else {
            prev
        }
    }
}

/// The labels of the tags in one namespace, such as the artists.
pub fn tags_in(tags: &[String], namespace: &str) -> (r: Vec<String>)
    ensures
        strings_view(r@) == tags_in_of(strings_view(tags@), namespace@),
{
    let mut r: Vec<String> = Vec::new();
    let mut i: usize = 0;
    while i < tags.len()
        invariant
            i <= tags@.len(),
            strings_view(r@) == tags_in_of(strings_view(tags@).take(i as int), namespace@),
        decreases tags@.len() - i,
    {
        let raw = tags[i].as_str();
        let ghost t = strings_view(tags@).take(i + 1);
        assert(t.drop_last() =~= strings_view(tags@).take(i as int));
        assert(t.last() == raw@);
        if str_eq(tag_namespace(raw), namespace) {
            r.push(tag_label(raw).to_owned());
            assert(strings_view(r@) =~= tags_in_of(strings_view(tags@).take(i as int), namespace@).push(
                label_of(raw@),
            ));
        }
        i += 1;
    }
    assert(strings_view(tags@).take(tags@.len() as int) =~= strings_view(tags@));
    r
}

/// The `gdata` request for one gallery id.
pub fn gdata_request(manga_id: &str) -> (r: Result<GDataRequest<'static>, SourceError>)
    ensures
        r matches Ok(q) ==> {
            &&& split_id_of(manga_id@) matches Some(p)
            &&& q.method@ == "gdata"@
            &&& q.gidlist@.len() == 1
            &&& q.gidlist@[0].0 as nat == p.0
            &&& q.gidlist@[0].1@ == p.1
            &&& q.namespace == 1
        },
        r matches Err(e) ==> split_id_of(manga_id@) is None && is_parse_error(
            e,
            malformed_id_message(manga_id@),
        ),
{
    let (gid, token) = split_id(manga_id)?;
    let mut gidlist: Vec<(u64, String)> = Vec::new();
    gidlist.push((gid, token));
    Ok(GDataRequest { method: "gdata", gidlist, namespace: 1 })
}

/// The message of a gallery the API does not know.
pub open spec fn no_gallery_message(id: Seq<char>) -> Seq<char> {
    "no gallery "@ + id
}

/// The manga a `gdata` answer describes: the first gallery's metadata, its
/// group tags as authors, its artist tags as artists, every tag with its
/// label, the japanese title as description. A missing gallery or an error
/// the API reports is a not-found error.
pub fn manga_from_gdata(manga_id: &str, response: GDataResponse) -> (r: Result<Manga, SourceError>)
    ensures
        response.gmetadata@.len() == 0 ==> (r matches Err(e) && is_not_found(
            e,
            no_gallery_message(manga_id@),
        )),
        response.gmetadata@.len() > 0 ==> {
            let meta = response.gmetadata@[0];
            let tags = strings_view(meta.tags@);
            match meta.error {
                Some(err) => (r matches Err(e) && is_not_found(e, err@)),
                None => (r matches Ok(m) && {
                    &&& m.id@ == manga_id@
                    &&& m.title@ == meta.title@
                    &&& m.description@ == meta.title_jpn@
                    &&& tag_pairs(m.tags@) == tags.map_values(|t: Seq<char>| (t, label_of(t)))
                    &&& m.cover_url@ == meta.thumb@
                    &&& strings_view(m.author@) == tags_in_of(tags, "group"@)
                    &&& strings_view(m.artist@) == tags_in_of(tags, "artist"@)
                    &&& m.status == Status::Completed
                    &&& m.last_updated@ == meta.posted@
                    &&& opt_string(m.rating) == Some(meta.rating@)
                    &&& m.views is None
                }),
            }
        },
{
    let mut response = response;
    if response.gmetadata.len() == 0 {
        let mut v = chars_of("no gallery ");
        push_str(&mut v, manga_id);
        return Err(SourceError::NotFound { message: string_of(&v) });
    }
    let meta = response.gmetadata.remove(0);
    if let Some(error) = meta.error {
        return Err(SourceError::NotFound { message: error });
    }
    let author = tags_in(meta.tags.as_slice(), "group");
    let artist = tags_in(meta.tags.as_slice(), "artist");
    let mut tags: Vec<Tag> = Vec::new();
    let mut i: usize = 0;
    while i < meta.tags.len()
        invariant
            i <= meta.tags@.len(),
            tags@.len() == i,
            forall|k: int|
                0 <= k < i ==> (#[trigger] tags@[k]).id@ == meta.tags@[k]@ && tags@[k].label@
                    == label_of(meta.tags@[k]@),
        decreases meta.tags@.len() - i,
    {
        let raw = meta.tags[i].as_str();
        tags.push(Tag { id: raw.to_owned(), label: tag_label(raw).to_owned() });
        i += 1;
    }
    assert(tag_pairs(tags@) =~= strings_view(meta.tags@).map_values(
        |t: Seq<char>| (t, label_of(t)),
    ));
    Ok(
        Manga {
            id: manga_id.to_owned(),
            title: meta.title,
            description: meta.title_jpn,
            tags,
            cover_url: meta.thumb,
            author,
            artist,
            status: Status::Completed,
            last_updated: meta.posted,
            rating: Some(meta.rating),
            views: None,
        },
    )
}

/// The URL of a gallery.
pub open spec fn gallery_url_of(gid: nat, token: Seq<char>) -> Seq<char> {
    "https://e-hentai.org/g/"@ + dec(gid) + "/"@ + token + "/"@
}

/// The URL of a gallery.
pub fn gallery_url(gid: u64, token: &str) -> (r: String)
    ensures
        r@ == gallery_url_of(gid as nat, token@),
{
    let mut v = chars_of("https://e-hentai.org/g/");
    let d = dec_chars(gid);
    push_all(&mut v, &d);
    push_str(&mut v, "/");
    push_str(&mut v, token);
    push_str(&mut v, "/");
    string_of(&v)
}

/// A gallery is read as one chapter, titled `Gallery`, linking to the
/// gallery page.
pub fn gallery_chapter(manga_id: &str) -> (r: Result<Chapter, SourceError>)
    ensures
        r matches Ok(c) ==> {
            &&& split_id_of(manga_id@) matches Some(p)
            &&& c.id@ == manga_id@
            &&& c.title@ == "Gallery"@
            &&& c.manga_id@ == manga_id@
            &&& c.number@ == "1"@
            &&& c.language@ == "multi"@
            &&& c.upload_date@.len() == 0
            &&& c.page_count is None
            &&& c.scanlator is None
            &&& c.url@ == gallery_url_of(p.0, p.1)
            &&& !c.is_locked
        },
        r matches Err(e) ==> split_id_of(manga_id@) is None && is_parse_error(
            e,
            malformed_id_message(manga_id@),
        ),
{
    let (gid, token) = split_id(manga_id)?;
    Ok(
        Chapter {
            id: manga_id.to_owned(),
            title: owned("Gallery"),
            manga_id: manga_id.to_owned(),
            number: owned("1"),
            language: owned("multi"),
            upload_date: String::new(),
            page_count: None,
            scanlator: None,
            url: gallery_url(gid, token.as_str()),
            is_locked: false,
        },
    )
}

// ---------------------------------------------------------------------------
// Image keys of a gallery
// ---------------------------------------------------------------------------

/// The multi-page viewer URL of a gallery.
pub open spec fn mpv_url_of(gid: nat, token: Seq<char>) -> Seq<char> {
    "https://e-hentai.org/mpv/"@ + dec(gid) + "/"@ + token + "/"@
}

/// The URL of page `page` (counted from 0) of a gallery's thumbnail grid.
pub open spec fn gallery_page_url_of(gid: nat, token: Seq<char>, page: nat) -> Seq<char> {
    gallery_url_of(gid, token) + "?p="@ + dec(page)
}

/// Where a walk over a gallery's image keys stands.
#[derive(PartialEq, Eq, Structural, Clone, Copy, Debug)]
pub enum KeyPhase {
    /// Fetching the multi-page viewer (members only).
    Viewer,
    /// Fetching the first page of the thumbnail grid.
    First,
    /// Fetching further pages of the thumbnail grid.
    More,
}

/// What to do next while collecting a gallery's image keys.
pub enum KeyStep {
    /// Fetch this URL and hand its HTML back.
    Fetch(String),
    /// The `(page, imgkey)` of every image found, in page order.
    Done(Vec<(u32, String)>),
}

/// A walk collecting the image keys of gallery `gid`.
///
/// The multi-page viewer yields every key in one request but only for
/// members; otherwise the thumbnail grid is paged 20 rows at a time until
/// the gallery's file count is reached.
pub struct ImageKeyWalk {
    pub gid: u64,
    pub token: String,
    pub phase: KeyPhase,
    pub keys: Vec<(u32, String)>,
    pub total: u32,
    pub per_page: u32,
    pub page: u64,
    /// The grid pages read so far, in order.
    pub grid: Ghost<Seq<Seq<char>>>,
}

/// Whether a grid page lists a key for page `p`.
pub open spec fn lists_page(html: Seq<char>, gid: u64, p: u32) -> bool {
    exists|e: (u32, Seq<char>)| #[trigger] image_keys_of(html, gid).contains(e) && e.0 == p
}

/// Whether some of the grid pages lists a key for page `p`.
pub open spec fn grid_page(pages: Seq<Seq<char>>, gid: u64, p: u32) -> bool
    decreases pages.len(),
{
    if pages.len() == 0 {
        false
    } else {
        grid_page(pages.drop_last(), gid, p) || lists_page(pages.last(), gid, p)
    }
}

/// Whether entry `e` is among the keys grid pages give: the first page's
/// keys, then from each later page the keys of pages not yet seen.
pub open spec fn grid_has(pages: Seq<Seq<char>>, gid: u64, e: (u32, Seq<char>)) -> bool
    decreases pages.len(),
{
    if pages.len() == 0 {
        false
    } else {
        let prev = pages.drop_last();
        grid_has(prev, gid, e) || (image_keys_of(pages.last(), gid).contains(e) && !grid_page(prev, gid, e.0))
    }
}

/// A page is seen exactly when the grid pages give a key for it.
proof fn lemma_grid_page(pages: Seq<Seq<char>>, gid: u64, p: u32)
    ensures
        grid_page(pages, gid, p) <==> exists|f: (u32, Seq<char>)| #[trigger] grid_has(pages, gid, f) && f.0 == p,
    decreases pages.len(),
{
    if pages.len() > 0 {
        let prev = pages.drop_last();
        lemma_grid_page(prev, gid, p);
        if grid_page(pages, gid, p) {
            if grid_page(prev, gid, p) {
                let f = choose|f: (u32, Seq<char>)| #[trigger] grid_has(prev, gid, f) && f.0 == p;
                assert(grid_has(pages, gid, f));
            } else {
                let e = choose|e: (u32, Seq<char>)|
                    #[trigger] image_keys_of(pages.last(), gid).contains(e) && e.0 == p;
                assert(grid_has(pages, gid, e));
            }
        }
        if exists|f: (u32, Seq<char>)| #[trigger] grid_has(pages, gid, f) && f.0 == p {
            let f = choose|f: (u32, Seq<char>)| #[trigger] grid_has(pages, gid, f) && f.0 == p;
            if !grid_has(prev, gid, f) {
                assert(lists_page(pages.last(), gid, p));
            }
        }
    }
}

/// One more grid page adds its keys for pages not yet seen.
proof fn lemma_grid_step(pages: Seq<Seq<char>>, html: Seq<char>, gid: u64, e: (u32, Seq<char>))
    ensures
        grid_has(pages.push(html), gid, e) == (grid_has(pages, gid, e) || (image_keys_of(html, gid).contains(e)
            && !grid_page(pages, gid, e.0))),
{
    assert(pages.push(html).drop_last() =~= pages);
}

/// From the first grid page alone, the keys are exactly the keys it lists.
pub proof fn lemma_first_grid_page(html: Seq<char>, gid: u64, e: (u32, Seq<char>))
    ensures
        grid_has(seq![html], gid, e) <==> image_keys_of(html, gid).contains(e),
{
    lemma_grid_step(Seq::empty(), html, gid, e);
    assert(Seq::<Seq<char>>::empty().push(html) =~= seq![html]);
}

/// Keys that hold exactly what some grid pages give hold a page exactly when
/// those grid pages list one for it.
proof fn lemma_has_page_grid(keys: Seq<(u32, Seq<char>)>, pages: Seq<Seq<char>>, gid: u64, p: u32)
    requires
        forall|e: (u32, Seq<char>)| keys.contains(e) <==> grid_has(pages, gid, e),
    ensures
        has_page(keys, p) <==> grid_page(pages, gid, p),
{
    lemma_grid_page(pages, gid, p);
    if has_page(keys, p) {
        let k = choose|k: int| 0 <= k < keys.len() && (#[trigger] keys[k]).0 == p;
        assert(keys.contains(keys[k]));
        assert(grid_has(pages, gid, keys[k]));
    }
    if grid_page(pages, gid, p) {
        let f = choose|f: (u32, Seq<char>)| #[trigger] grid_has(pages, gid, f) && f.0 == p;
        assert(keys.contains(f));
        let k = choose|k: int| 0 <= k < keys.len() && keys[k] == f;
        assert(keys[k].0 == p);
    }
}

/// `t / p` rounded up, for `p > 0`.
pub open spec fn ceil_div(t: nat, p: nat) -> nat {
    if p == 0 {
        0
    } else {
        t / p + if t % p != 0 {
            1nat
        } else {
            0nat
        }
    }
}

/// The grid page beyond which the walk gives up: one past the pages the
/// file count needs.
pub open spec fn page_limit(total: u32, per_page: u32) -> nat {
    ceil_div(total as nat, per_page as nat) + 1
}

/// The number of keys, as the walk counts them.
pub open spec fn key_count(keys: Seq<(u32, String)>) -> u32 {
    keys.len() as u32
}

impl ImageKeyWalk {
    /// The walk is consistent: its keys ascend by page, and while paging the
    /// grid it has not passed the page limit.
    ///
    /// Its keys are exactly those the grid pages read so far give.
    pub open spec fn wf(&self) -> bool {
        &&& ascending_pages(keys_view(self.keys@))
        &&& self.phase != KeyPhase::More ==> self.grid@.len() == 0 && self.keys@.len() == 0
        &&& forall|e: (u32, Seq<char>)| keys_view(self.keys@).contains(e) <==> grid_has(self.grid@, self.gid, e)
        &&& self.phase == KeyPhase::More ==> self.per_page >= 1 && 1 <= self.page <= page_limit(
            self.total,
            self.per_page,
        ) + 1
    }

    /// Fetches left before the walk must end.
    pub open spec fn remaining(&self) -> int {
        match self.phase {
            KeyPhase::Viewer => 0x1_0000_0004,
            KeyPhase::First => 0x1_0000_0003,
            KeyPhase::More => page_limit(self.total, self.per_page) + 1 - self.page,
        }
    }

    /// Starts collecting the keys of gallery `gid`: from the multi-page
    /// viewer for a member, else from the thumbnail grid.
    pub fn start(gid: u64, token: &str, member: bool) -> (r: (ImageKeyWalk, String))
        ensures
            r.0.wf(),
            r.0.gid == gid,
            r.0.token@ == token@,
            r.0.keys@.len() == 0,
            member ==> r.0.phase == KeyPhase::Viewer && r.1@ == mpv_url_of(gid as nat, token@),
            !member ==> r.0.phase == KeyPhase::First && r.1@ == gallery_url_of(gid as nat, token@),
    {
        let walk = ImageKeyWalk {
            gid,
            token: token.to_owned(),
            phase: if member {
                KeyPhase::Viewer
            } else {
                KeyPhase::First
            },
            keys: Vec::new(),
            total: 0,
            per_page: 1,
            page: 0,
            grid: Ghost(Seq::empty()),
        };
        assert(keys_view(walk.keys@) =~= Seq::<(u32, Seq<char>)>::empty());
        if member {
            let mut v = chars_of("https://e-hentai.org/mpv/");
            let d = dec_chars(gid);
            push_all(&mut v, &d);
            push_str(&mut v, "/");
            push_str(&mut v, token);
            push_str(&mut v, "/");
            (walk, string_of(&v))
        } else {
            (walk, gallery_url(gid, token))
        }
    }

    /// Takes the multi-page viewer's HTML (`None` when it could not be
    /// fetched): its keys when it lists any, else the first grid page to
    /// fetch.
    pub fn after_viewer(&mut self, html: Option<&str>) -> (r: KeyStep)
        requires
            old(self).wf(),
            old(self).phase == KeyPhase::Viewer,
        ensures
            final(self).wf(),
            final(self).gid == old(self).gid,
            final(self).token@ == old(self).token@,
            r is Fetch ==> 0 <= final(self).remaining() < old(self).remaining(),
            match html {
                Some(h) if mpv_keys_of(h@).len() > 0 => r matches KeyStep::Done(k) && keys_view(
                    k@,
                ) == mpv_keys_of(h@),
                _ => {
                    &&& final(self).phase == KeyPhase::First
                    &&& final(self).keys@.len() == 0
                    &&& r matches KeyStep::Fetch(u) && u@ == gallery_url_of(
                        old(self).gid as nat,
                        old(self).token@,
                    )
                },
            },
    {
        if let Some(h) = html {
            let keys = parse_mpv_keys(h);
            if keys.len() > 0 {
                return KeyStep::Done(keys);
            }
        }
        self.phase = KeyPhase::First;
        self.keys = Vec::new();
        assert(keys_view(self.keys@) =~= Seq::<(u32, Seq<char>)>::empty());
        KeyStep::Fetch(gallery_url(self.gid, self.token.as_str()))
    }

    /// Takes the HTML of the grid page last asked for, adds its keys, and says
    /// which grid page to fetch next or returns every key in page order.
    ///
    /// On the first grid page the count to reach is its `N pages` row (or the
    /// keys it lists) and a grid page holds as many keys as it lists. Later
    /// pages add the keys of pages not yet seen; an empty page, or passing one
    /// page beyond what the count needs, ends the walk.
    #[verifier::rlimit(40)]
    pub fn after_grid_page(&mut self, html: &str) -> (r: KeyStep)
        requires
            old(self).wf(),
            old(self).phase != KeyPhase::Viewer,
            old(self).phase == KeyPhase::More ==> old(self).page <= page_limit(
                old(self).total,
                old(self).per_page,
            ),
        ensures
            r is Fetch ==> final(self).page <= page_limit(final(self).total, final(self).per_page),
            final(self).wf(),
            final(self).gid == old(self).gid,
            final(self).token@ == old(self).token@,
            final(self).phase == KeyPhase::More,
            final(self).grid@ == old(self).grid@.push(html@),
            r matches KeyStep::Done(k) ==> forall|e: (u32, Seq<char>)|
                keys_view(k@).contains(e) <==> grid_has(final(self).grid@, old(self).gid, e),
            r is Fetch ==> 0 <= final(self).remaining() < old(self).remaining(),
            old(self).phase == KeyPhase::First ==> forall|e|
                keys_view(final(self).keys@).contains(e) <==> image_keys_of(html@, old(self).gid).contains(e),
            old(self).phase == KeyPhase::First ==> final(self).total == match file_count_of(html@) {
                Some(n) => n as u32,
                None => key_count(final(self).keys@),
            },
            old(self).phase == KeyPhase::First ==> final(self).per_page == if key_count(
                final(self).keys@,
            ) == 0 {
                1
            } else {
                key_count(final(self).keys@)
            },
            old(self).phase == KeyPhase::First ==> final(self).page == 1,
            r matches KeyStep::Done(k) ==> ascending_pages(keys_view(k@)),
            old(self).phase == KeyPhase::More ==> forall|e|
                keys_view(final(self).keys@).contains(e) <==> (keys_view(old(self).keys@).contains(e) || (
                image_keys_of(html@, old(self).gid).contains(e) && !has_page(
                    keys_view(old(self).keys@),
                    e.0,
                ))),
            old(self).phase == KeyPhase::More ==> final(self).total == old(self).total
                && final(self).per_page == old(self).per_page,
            old(self).phase == KeyPhase::More ==> final(self).page == if image_keys_of(
                html@,
                old(self).gid,
            ).len() == 0 {
                old(self).page
            } else {
                (old(self).page + 1) as u64
            },
            ({
                let stop = (old(self).phase == KeyPhase::More && (image_keys_of(
                    html@,
                    old(self).gid,
                ).len() == 0 || final(self).page > page_limit(final(self).total, final(self).per_page)))
                    || key_count(final(self).keys@) >= final(self).total;
                &&& stop ==> (r matches KeyStep::Done(k) && keys_view(k@) == keys_view(
                    final(self).keys@,
                ))
                &&& !stop ==> (r matches KeyStep::Fetch(u) && u@ == gallery_page_url_of(
                    old(self).gid as nat,
                    old(self).token@,
                    final(self).page as nat,
                ))
            }),
    {
        let found = parse_image_keys(html, self.gid);
        let ghost old_grid = self.grid@;
        let ghost gid = self.gid;
        self.grid = Ghost(old_grid.push(html@));
        assert(self.grid@.drop_last() =~= old_grid);
        assert(self.grid@.last() == html@);
        if self.phase == KeyPhase::First {
            let n = found.len();
            let count: u32 = #[verifier::truncate] (n as u32);
            self.total = match parse_file_count(html) {
                Some(t) => t,
                None => count,
            };
            self.per_page = if count == 0 {
                1
            } else {
                count
            };
            self.keys = found;
            self.page = 1;
            self.phase = KeyPhase::More;
            proof {
                assert(old_grid =~= Seq::<Seq<char>>::empty());
                assert forall|e: (u32, Seq<char>)|
                    keys_view(self.keys@).contains(e) <==> grid_has(self.grid@, gid, e) by {
                    assert(!grid_has(old_grid, gid, e));
                    assert(!grid_page(old_grid, gid, e.0));
                }
            }
        } else {
            let ghost fv = keys_view(found@);
            let ghost imgs = image_keys_of(html@, self.gid);
            let ghost before = keys_view(self.keys@);
            if found.len() == 0 {
                assert forall|e| !imgs.contains(e) by {
                    assert(!fv.contains(e));
                }
                assert forall|e: (u32, Seq<char>)|
                    keys_view(self.keys@).contains(e) <==> grid_has(self.grid@, gid, e) by {
                    assert(!imgs.contains(e));
                    assert(before.contains(e) <==> grid_has(old_grid, gid, e));
                    lemma_grid_step(old_grid, html@, gid, e);
                }
                return KeyStep::Done(copy_keys(&self.keys));
            }
            merge_keys(&mut self.keys, found);
            assert forall|e|
                keys_view(self.keys@).contains(e) <==> (before.contains(e) || (imgs.contains(e)
                    && !has_page(before, e.0))) by {
                assert(fv.contains(e) <==> imgs.contains(e));
            }
            assert forall|e: (u32, Seq<char>)|
                keys_view(self.keys@).contains(e) <==> grid_has(self.grid@, gid, e) by {
                lemma_has_page_grid(before, old_grid, gid, e.0);
                assert(before.contains(e) <==> grid_has(old_grid, gid, e));
                lemma_grid_step(old_grid, html@, gid, e);
            }
            self.page = self.page + 1;
            let limit = (self.total / self.per_page) as u64 + if self.total % self.per_page != 0 {
                1
            } else {
                0
            } + 1;
            if self.page > limit {
                return KeyStep::Done(copy_keys(&self.keys));
            }
        }
        let count: u32 = #[verifier::truncate] (self.keys.len() as u32);
        if count >= self.total {
            return KeyStep::Done(copy_keys(&self.keys));
        }
        let mut v = chars_of(gallery_url(self.gid, self.token.as_str()).as_str());
        push_str(&mut v, "?p=");
        let d = dec_chars(self.page);
        push_all(&mut v, &d);
        KeyStep::Fetch(string_of(&v))
    }
}

/// A copy of a list of `(page, key)` entries.
fn copy_keys(keys: &Vec<(u32, String)>) -> (r: Vec<(u32, String)>)
    ensures
        keys_view(r@) == keys_view(keys@),
{
    let mut r: Vec<(u32, String)> = Vec::new();
    let mut i: usize = 0;
    while i < keys.len()
        invariant
            i <= keys@.len(),
            r@.len() == i,
            forall|j: int| 0 <= j < i ==> (#[trigger] r@[j]).0 == keys@[j].0 && r@[j].1@ == keys@[j].1@,
        decreases keys@.len() - i,
    {
        let k = keys[i].1.clone();
        r.push((keys[i].0, k));
        i += 1;
    }
    assert(keys_view(r@) =~= keys_view(keys@));
    r
}

proof fn lemma_add_key_contains(cur: Seq<(u32, Seq<char>)>, n: (u32, Seq<char>), e: (u32, Seq<char>))
    ensures
        add_key(cur, n).contains(e) <==> (cur.contains(e) || (e == n && !has_page(cur, n.0))),
{
    if !has_page(cur, n.0) {
        if cur.contains(e) {
            let m = choose|m: int| 0 <= m < cur.len() && cur[m] == e;
            assert(cur.push(n)[m] == e);
        }
        if e == n {
            assert(cur.push(n)[cur.len() as int] == e);
        }
        if cur.push(n).contains(e) {
            let m = choose|m: int| 0 <= m < cur.push(n).len() && cur.push(n)[m] == e;
            if m < cur.len() {
                assert(cur[m] == e);
            }
        }
    }
}

/// The entries the merge has added after `i` entries of `more`.
spec fn merged(before: Seq<(u32, Seq<char>)>, mv: Seq<(u32, Seq<char>)>, i: int, e: (u32, Seq<char>)) -> bool {
    before.contains(e) || exists|j: int| 0 <= j < i && mv[j] == e && !has_page(before, e.0)
}

proof fn lemma_merge_step(
    before: Seq<(u32, Seq<char>)>,
    mv: Seq<(u32, Seq<char>)>,
    cur: Seq<(u32, Seq<char>)>,
    i: int,
)
    requires
        0 <= i < mv.len(),
        ascending_pages(mv),
        forall|e| cur.contains(e) <==> merged(before, mv, i, e),
    ensures
        forall|e| add_key(cur, mv[i]).contains(e) <==> merged(before, mv, i + 1, e),
{
    let n = mv[i];
    assert(has_page(cur, n.0) <==> has_page(before, n.0)) by {
        if has_page(cur, n.0) {
            let k = choose|k: int| 0 <= k < cur.len() && (#[trigger] cur[k]).0 == n.0;
            assert(cur.contains(cur[k]));
            if before.contains(cur[k]) {
                let b = choose|b: int| 0 <= b < before.len() && before[b] == cur[k];
                assert(before[b].0 == n.0);
            } else {
                let j = choose|j: int| 0 <= j < i && mv[j] == cur[k] && !has_page(before, cur[k].0);
                assert(mv[j].0 < mv[i].0);
            }
        }
        if has_page(before, n.0) {
            let b = choose|b: int| 0 <= b < before.len() && (#[trigger] before[b]).0 == n.0;
            assert(before.contains(before[b]));
            assert(merged(before, mv, i, before[b]));
            assert(cur.contains(before[b]));
            let k = choose|k: int| 0 <= k < cur.len() && cur[k] == before[b];
            assert(cur[k].0 == n.0);
        }
    }
    assert forall|e| add_key(cur, n).contains(e) <==> merged(before, mv, i + 1, e) by {
        lemma_add_key_contains(cur, n, e);
        if merged(before, mv, i + 1, e) && !before.contains(e) {
            let j = choose|j: int| 0 <= j < i + 1 && mv[j] == e && !has_page(before, e.0);
            if j < i {
                assert(merged(before, mv, i, e));
            }
        }
        if merged(before, mv, i, e) && !before.contains(e) {
            let j = choose|j: int| 0 <= j < i && mv[j] == e && !has_page(before, e.0);
            assert(0 <= j < i + 1 && mv[j] == e && !has_page(before, e.0));
        }
        if e == n && !has_page(cur, n.0) {
            assert(0 <= i < i + 1 && mv[i] == e && !has_page(before, e.0));
        }
    }
}

/// Adds to `keys` every entry of `more` whose page it does not hold yet,
/// keeping `keys` ascending by page.
fn merge_keys(keys: &mut Vec<(u32, String)>, more: Vec<(u32, String)>)
    requires
        ascending_pages(keys_view(old(keys)@)),
        ascending_pages(keys_view(more@)),
    ensures
        ascending_pages(keys_view(final(keys)@)),
        forall|e|
            keys_view(final(keys)@).contains(e) <==> (keys_view(old(keys)@).contains(e) || (
            keys_view(more@).contains(e) && !has_page(keys_view(old(keys)@), e.0))),
{
    let ghost before = keys_view(keys@);
    let ghost mv = keys_view(more@);
    let mut i: usize = 0;
    let n = more.len();
    while i < n
        invariant
            n == more@.len(),
            i <= n,
            mv == keys_view(more@),
            ascending_pages(mv),
            ascending_pages(keys_view(keys@)),
            forall|e| keys_view(keys@).contains(e) <==> merged(before, mv, i as int, e),
        decreases n - i,
    {
        let page = more[i].0;
        let key = more[i].1.clone();
        let ghost cur = keys_view(keys@);
        assert(mv[i as int] == (page, key@));
        proof {
            lemma_merge_step(before, mv, cur, i as int);
        }
        insert_key(keys, page, key, Ghost(cur));
        assert forall|e| keys_view(keys@).contains(e) <==> merged(before, mv, i + 1, e) by {
            assert(keys_view(keys@).contains(e) <==> add_key(cur, (page, key@)).contains(e));
        }
        i += 1;
    }
    assert forall|e| merged(before, mv, n as int, e) <==> (before.contains(e) || (mv.contains(e)
        && !has_page(before, e.0))) by {
        if mv.contains(e) && !has_page(before, e.0) {
            let j = choose|j: int| 0 <= j < mv.len() && mv[j] == e;
        }
    }
}

// ---------------------------------------------------------------------------
// Pages
// ---------------------------------------------------------------------------

/// The image page of the first key, which carries the gallery's showkey, or
/// a parse error when the gallery listed no images.
pub fn first_image_url(gid: u64, keys: &[(u32, String)]) -> (r: Result<String, SourceError>)
    ensures
        keys@.len() == 0 ==> (r matches Err(e) && is_parse_error(e, "gallery listed no images"@)),
        keys@.len() > 0 ==> (r matches Ok(u) && u@ == image_page_url_of(
            gid as nat,
            keys_view(keys@)[0],
        )),
{
    if keys.len() == 0 {
        return Err(SourceError::Parse { message: owned("gallery listed no images") });
    }
    let mut v = chars_of("https://e-hentai.org/s/");
    push_str(&mut v, keys[0].1.as_str());
    push_str(&mut v, "/");
    let g = dec_chars(gid);
    push_all(&mut v, &g);
    push_str(&mut v, "-");
    let p = dec_chars(keys[0].0 as u64);
    push_all(&mut v, &p);
    Ok(string_of(&v))
}

/// The showkey of the first image page, or a parse error when it has none.
pub fn required_showkey(html: &str) -> (r: Result<String, SourceError>)
    ensures
        r matches Ok(k) ==> showkey_of(html@) == Some(k@),
        r matches Err(e) ==> showkey_of(html@) is None && is_parse_error(
            e,
            "no showkey on the image page"@,
        ),
{
    match parse_showkey(html) {
        Some(k) => Ok(k),
        None => Err(SourceError::Parse { message: owned("no showkey on the image page") }),
    }
}

/// The first page, read from the first image page's HTML.
pub fn first_page(html: &str) -> (r: Option<Page>)
    ensures
        match image_src_of(html@) {
            Some(u) => r matches Some(p) && p.number == 0 && p.image_url@ == u,
            None => r is None,
        },
{
    match parse_image_src(html) {
        Some(url) => Some(Page { number: 0, image_url: url }),
        None => None,
    }
}

/// The `showpage` request for one image.
pub fn showpage_request<'a>(gid: u64, page: u32, imgkey: &'a str, showkey: &'a str) -> (r:
    ShowPageRequest<'a>)
    ensures
        r.method@ == "showpage"@,
        r.gid == gid,
        r.page == page,
        r.imgkey@ == imgkey@,
        r.showkey@ == showkey@,
{
    ShowPageRequest { method: "showpage", gid, page, imgkey, showkey }
}

/// The page a `showpage` answer yields as image `index`: an error the API
/// reports fails the call, and an answer without an image URL is skipped.
pub fn page_from_showpage(index: usize, response: &ShowPageResponse) -> (r: Result<
    Option<Page>,
    SourceError,
>)
    ensures
        match response.error {
            Some(err) => r matches Err(e) && is_parse_error(e, err@),
            None => match image_src_of(response.i3@) {
                Some(u) => r matches Ok(Some(p)) && p.number == index as u32 && p.image_url@ == u,
                None => r matches Ok(None),
            },
        },
{
    if let Some(error) = &response.error {
        return Err(SourceError::Parse { message: error.clone() });
    }
    match parse_image_src(response.i3.as_str()) {
        Some(url) => Ok(Some(Page { number: #[verifier::truncate] (index as u32), image_url: url })),
        None => Ok(None),
    }
}


/// The image page of a key, which carries the gallery's showkey.
pub open spec fn image_page_url_of(gid: nat, key: (u32, Seq<char>)) -> Seq<char> {
    "https://e-hentai.org/s/"@ + key.1 + "/"@ + dec(gid) + "-"@ + dec(key.0 as nat)
}

/// Page numbers strictly ascending, each below `bound`.
pub open spec fn numbered_below(pages: Seq<Page>, bound: int) -> bool {
    &&& forall|j: int, k: int| 0 <= j < k < pages.len() ==> pages[j].number < pages[k].number
    &&& forall|k: int| 0 <= k < pages.len() ==> pages[k].number < bound
}

/// A `showpage` answer as `(error, image element)`.
pub open spec fn answer_view(a: ShowPageResponse) -> (Option<Seq<char>>, Seq<char>) {
    (opt_string(a.error), a.i3@)
}

/// The pages the answers give: answer `k` (counted from 0) shows page
/// `k + 1` when it reports no error and names an image.
pub open spec fn answered_pages(answers: Seq<(Option<Seq<char>>, Seq<char>)>) -> Seq<(u32, Seq<char>)>
    decreases answers.len(),
{
    if answers.len() == 0 {
        Seq::empty()
    } else {
        let prev = answered_pages(answers.drop_last());
        let a = answers.last();
        match image_src_of(a.1) {
            Some(u) if a.0 is None => prev.push((answers.len() as u32, u)),
            _ => prev,
        }
    }
}

/// Every page of a gallery as `(number, image URL)`: page 0 from the first
/// image page when it shows an image, then the pages the answers give.
pub open spec fn walk_pages(first: Seq<char>, answers: Seq<(Option<Seq<char>>, Seq<char>)>) -> Seq<
    (u32, Seq<char>),
> {
    (match image_src_of(first) {
        Some(u) => seq![(0u32, u)],
        None => Seq::empty(),
    }) + answered_pages(answers)
}

/// Pages as `(number, image URL)`.
pub open spec fn pages_view(pages: Seq<Page>) -> Seq<(u32, Seq<char>)> {
    pages.map_values(|p: Page| (p.number, p.image_url@))
}

/// The pages the answers give ascend by number, each at most the number of
/// answers (for fewer than 2^32 answers), and the page numbered `i` is the
/// image answer `i - 1` names.
pub proof fn lemma_answered_pages(answers: Seq<(Option<Seq<char>>, Seq<char>)>)
    requires
        answers.len() < 0x1_0000_0000,
    ensures
        forall|j: int, k: int|
            0 <= j < k < answered_pages(answers).len() ==> answered_pages(answers)[j].0
                < answered_pages(answers)[k].0,
        forall|k: int|
            0 <= k < answered_pages(answers).len() ==> {
                let (n, u) = #[trigger] answered_pages(answers)[k];
                &&& 1 <= n <= answers.len()
                &&& answers[n - 1].0 is None
                &&& image_src_of(answers[n - 1].1) == Some(u)
            },
    decreases answers.len(),
{
    if answers.len() > 0 {
        let prev = answers.drop_last();
        lemma_answered_pages(prev);
        assert forall|k: int| 0 <= k < answered_pages(prev).len() implies {
            let (n, u) = #[trigger] answered_pages(prev)[k];
            &&& answers[n - 1].0 is None
            &&& image_src_of(answers[n - 1].1) == Some(u)
        } by {
            let (n, u) = answered_pages(prev)[k];
            assert(answers[n - 1] == prev[n - 1]);
        }
    }
}

/// A finished walk's pages ascend by number and each is below the key
/// count: page 0 from the first image page, page `i` from answer `i - 1`.
pub proof fn lemma_walk_pages(first: Seq<char>, answers: Seq<(Option<Seq<char>>, Seq<char>)>)
    requires
        answers.len() < 0x1_0000_0000,
    ensures
        forall|j: int, k: int|
            0 <= j < k < walk_pages(first, answers).len() ==> walk_pages(first, answers)[j].0 < walk_pages(
                first,
                answers,
            )[k].0,
        forall|k: int| 0 <= k < walk_pages(first, answers).len() ==> #[trigger] walk_pages(first, answers)[k].0
            <= answers.len(),
{
    lemma_answered_pages(answers);
    let head = match image_src_of(first) {
        Some(u) => seq![(0u32, u)],
        None => Seq::<(u32, Seq<char>)>::empty(),
    };
    let tail = answered_pages(answers);
    assert forall|k: int| 0 <= k < tail.len() implies #[trigger] tail[k].0 >= 1 by {
        let (n, u) = tail[k];
    }
    assert forall|k: int| 0 <= k < walk_pages(first, answers).len() implies #[trigger] walk_pages(first, answers)[k].0
        <= answers.len() by {
        if k >= head.len() {
            assert(walk_pages(first, answers)[k] == tail[k - head.len()]);
            let (n, u) = tail[k - head.len()];
        }
    }
    assert forall|j: int, k: int|
        0 <= j < k < walk_pages(first, answers).len() implies walk_pages(first, answers)[j].0 < walk_pages(
        first,
        answers,
    )[k].0 by {
        if j >= head.len() {
            assert(walk_pages(first, answers)[j] == tail[j - head.len()]);
            assert(walk_pages(first, answers)[k] == tail[k - head.len()]);
        } else {
            assert(walk_pages(first, answers)[k] == tail[k - head.len()]);
            assert(tail[k - head.len()].0 >= 1);
        }
    }
}

/// Fetching the pages of a gallery, image by image.
///
/// The first image page is fetched as HTML, because it alone carries the
/// showkey every later call needs; then each later key (`next` counts the
/// keys handled) costs one `showpage` call. Page `i` shows key `i`.
pub struct PagesWalk {
    pub gid: u64,
    pub keys: Vec<(u32, String)>,
    pub showkey: Option<String>,
    pub next: usize,
    pub pages: Vec<Page>,
    /// The first image page, once read.
    pub first: Ghost<Seq<char>>,
    /// The `showpage` answers taken so far, in order.
    pub answers: Ghost<Seq<(Option<Seq<char>>, Seq<char>)>>,
}

impl PagesWalk {
    /// Before the first image page no key is handled and no page is known;
    /// after it, `next` keys are handled and the pages so far ascend below
    /// `next` (while page numbers fit in a `u32`).
    ///
    /// The pages are exactly those the first image page and the answers so
    /// far give, one answer having been taken for each key after the first.
    pub open spec fn wf(&self) -> bool {
        &&& self.keys@.len() > 0
        &&& self.showkey is None ==> self.next == 0 && self.pages@.len() == 0 && self.answers@.len() == 0
        &&& self.showkey is Some ==> {
            &&& 1 <= self.next <= self.keys@.len()
            &&& self.next == self.answers@.len() + 1
            &&& pages_view(self.pages@) == walk_pages(self.first@, self.answers@)
        }
        &&& self.keys@.len() <= 0x1_0000_0000 ==> numbered_below(self.pages@, self.next as int)
    }

    /// `showpage` calls left.
    pub open spec fn remaining(&self) -> int {
        self.keys@.len() - self.next
    }

    /// Starts on the keys of gallery `gid`: the image page of the first key
    /// to fetch, or a parse error when the gallery listed no images.
    pub fn start(gid: u64, keys: Vec<(u32, String)>) -> (r: Result<(PagesWalk, String), SourceError>)
        ensures
            keys@.len() == 0 <==> r is Err,
            r matches Err(e) ==> is_parse_error(e, "gallery listed no images"@),
            r matches Ok((w, u)) ==> {
                &&& w.wf()
                &&& w.gid == gid
                &&& w.keys@ == keys@
                &&& w.showkey is None
                &&& u@ == image_page_url_of(gid as nat, keys_view(keys@)[0])
            },
    {
        match first_image_url(gid, keys.as_slice()) {
            Err(e) => Err(e),
            Ok(url) => {
                let walk = PagesWalk {
                    gid,
                    keys,
                    showkey: None,
                    next: 0,
                    pages: Vec::new(),
                    first: Ghost(Seq::empty()),
                    answers: Ghost(Seq::empty()),
                };
                Ok((walk, url))
            },
        }
    }

    /// Takes the first image page's HTML: fails when it has no showkey,
    /// else keeps the showkey and its image as page 0 (when it shows one).
    pub fn after_first(&mut self, html: &str) -> (r: Result<(), SourceError>)
        requires
            old(self).wf(),
            old(self).showkey is None,
        ensures
            final(self).wf(),
            final(self).gid == old(self).gid,
            final(self).keys@ == old(self).keys@,
            match showkey_of(html@) {
                None => r matches Err(e) && is_parse_error(e, "no showkey on the image page"@)
                    && final(self).showkey is None,
                Some(k) => {
                    &&& r is Ok
                    &&& final(self).showkey matches Some(s) && s@ == k
                    &&& final(self).next == 1
                    &&& final(self).first@ == html@
                    &&& final(self).answers@.len() == 0
                    &&& match image_src_of(html@) {
                        Some(u) => final(self).pages@.len() == 1 && final(self).pages@[0].number == 0
                            && final(self).pages@[0].image_url@ == u,
                        None => final(self).pages@.len() == 0,
                    }
                },
            },
    {
        let showkey = match required_showkey(html) {
            Err(e) => {
                return Err(e);
            },
            Ok(k) => k,
        };
        if let Some(page) = first_page(html) {
            self.pages.push(page);
        }
        self.first = Ghost(html@);
        assert(pages_view(self.pages@) =~= walk_pages(html@, Seq::empty()));
        self.showkey = Some(showkey);
        self.next = 1;
        Ok(())
    }

    /// The `showpage` call for the next key, or `None` once every key is
    /// handled.
    pub fn request(&self) -> (r: Option<ShowPageRequest<'_>>)
        requires
            self.wf(),
            self.showkey is Some,
        ensures
            r is Some <==> self.next < self.keys@.len(),
            r matches Some(q) ==> {
                &&& q.method@ == "showpage"@
                &&& q.gid == self.gid
                &&& q.page == self.keys@[self.next as int].0
                &&& q.imgkey@ == self.keys@[self.next as int].1@
                &&& self.showkey matches Some(s) && q.showkey@ == s@
            },
    {
        if self.next >= self.keys.len() {
            return None;
        }
        match &self.showkey {
            Some(s) => {
                let i = self.next;
                Some(showpage_request(self.gid, self.keys[i].0, self.keys[i].1.as_str(), s.as_str()))
            },
            None => None,
        }
    }

    /// Takes the answer to the call for key `next`: an error the API reports
    /// fails the walk; otherwise its image, when it names one, becomes page
    /// `next`, and the walk moves to the following key.
    pub fn after_showpage(&mut self, response: &ShowPageResponse) -> (r: Result<(), SourceError>)
        requires
            old(self).wf(),
            old(self).showkey is Some,
            old(self).next < old(self).keys@.len(),
        ensures
            final(self).wf(),
            final(self).gid == old(self).gid,
            final(self).keys@ == old(self).keys@,
            final(self).showkey == old(self).showkey,
            final(self).next == old(self).next + 1,
            final(self).first@ == old(self).first@,
            final(self).answers@ == old(self).answers@.push(answer_view(*response)),
            0 <= final(self).remaining() < old(self).remaining(),
            match response.error {
                Some(err) => r matches Err(e) && is_parse_error(e, err@),
                None => r is Ok && match image_src_of(response.i3@) {
                    Some(u) => {
                        &&& final(self).pages@.len() == old(self).pages@.len() + 1
                        &&& final(self).pages@.drop_last() == old(self).pages@
                        &&& final(self).pages@.last().number == #[verifier::truncate] (old(self).next as u32)
                        &&& final(self).pages@.last().image_url@ == u
                    },
                    None => final(self).pages@ == old(self).pages@,
                },
            },
    {
        let index = self.next;
        let n = self.keys.len();
        assert(index < n);
        self.next = index + 1;
        let ghost before = self.pages@;
        let ghost prev = self.answers@;
        let ghost first = self.first@;
        let ghost head = match image_src_of(first) {
            Some(u) => seq![(0u32, u)],
            None => Seq::<(u32, Seq<char>)>::empty(),
        };
        self.answers = Ghost(prev.push(answer_view(*response)));
        assert(self.answers@.drop_last() =~= prev);
        match page_from_showpage(index, response) {
            Err(e) => {
                assert(walk_pages(first, self.answers@) =~= walk_pages(first, prev));
                Err(e)
            },
            Ok(Some(page)) => {
                let ghost entry = (page.number, page.image_url@);
                self.pages.push(page);
                assert(self.pages@.drop_last() =~= before);
                assert(pages_view(self.pages@) =~= pages_view(before).push(entry));
                assert(walk_pages(first, self.answers@) =~= head + answered_pages(prev).push(entry));
                assert(head + answered_pages(prev).push(entry) =~= (head + answered_pages(prev)).push(entry));
                Ok(())
            },
            Ok(None) => {
                assert(walk_pages(first, self.answers@) =~= walk_pages(first, prev));
                Ok(())
            },
        }
    }

    /// The pages found so far.
    pub fn into_pages(self) -> (r: Vec<Page>)
        ensures
            r@ == self.pages@,
    {
        self.pages
    }
}

/// A walk that handled every key took exactly one `showpage` answer per key
/// after the first, and its pages are those the first image page and the
/// answers give: ascending by number, each below the key count (numbers
/// being `u32`, for at most 2^32 keys).
pub proof fn lemma_finished_walk_pages(w: PagesWalk)
    requires
        w.wf(),
        w.showkey is Some,
        w.next == w.keys@.len(),
        w.keys@.len() <= 0x1_0000_0000,
    ensures
        w.answers@.len() == w.keys@.len() - 1,
        pages_view(w.pages@) == walk_pages(w.first@, w.answers@),
        numbered_below(w.pages@, w.keys@.len() as int),
{
}


/// The settings table: `(key, label, kind, help text, options)`.
pub open spec fn settings_table() -> Seq<(Seq<char>, Seq<char>, SettingKind, Seq<char>, Seq<(Seq<char>, Seq<char>)>)> {
    seq![
        ("ipb_member_id"@, "Member ID"@, SettingKind::Secret, "Optional. From the ipb_member_id cookie after logging in at forums.e-hentai.org. Raises the image limit and unlocks the multi-page viewer."@, Seq::empty()),
        ("ipb_pass_hash"@, "Pass Hash"@, SettingKind::Secret, "Optional. From the ipb_pass_hash cookie."@, Seq::empty()),
    ]
}

/// The member session's two cookies, both optional secrets.
pub fn settings() -> (r: Vec<Setting>)
    ensures
        r@.map_values(|s: Setting| setting_view(s)) == settings_table(),
{
    let options0: Vec<SelectOption> = Vec::new();
    assert(options0@.map_values(|o: SelectOption| o@) =~= settings_table()[0].4);
    let s0 = setting("ipb_member_id", "Member ID", SettingKind::Secret, "Optional. From the ipb_member_id cookie after logging in at forums.e-hentai.org. Raises the image limit and unlocks the multi-page viewer.", options0);
    let options1: Vec<SelectOption> = Vec::new();
    assert(options1@.map_values(|o: SelectOption| o@) =~= settings_table()[1].4);
    let s1 = setting("ipb_pass_hash", "Pass Hash", SettingKind::Secret, "Optional. From the ipb_pass_hash cookie.", options1);
    let r = vec![s0, s1];
    assert(r@.map_values(|s: Setting| setting_view(s)) =~= settings_table());
    r
}

/// The categories a search can be narrowed to, as `(id, label)`.
pub open spec fn category_options_table() -> Seq<(Seq<char>, Seq<char>)> {
    seq![
        ("doujinshi"@, "Doujinshi"@),
        ("manga"@, "Manga"@),
        ("artistcg"@, "Artist CG"@),
        ("gamecg"@, "Game CG"@),
        ("imageset"@, "Image Set"@),
        ("cosplay"@, "Cosplay"@),
        ("asianporn"@, "Asian Porn"@),
        ("non-h"@, "Non-H"@),
        ("western"@, "Western"@),
        ("misc"@, "Misc"@),
    ]
}

/// The options of the category filter.
pub fn category_options() -> (r: Vec<SelectOption>)
    ensures
        r@.map_values(|o: SelectOption| o@) == category_options_table(),
{
    let pairs = [
        ("doujinshi", "Doujinshi"),
        ("manga", "Manga"),
        ("artistcg", "Artist CG"),
        ("gamecg", "Game CG"),
        ("imageset", "Image Set"),
        ("cosplay", "Cosplay"),
        ("asianporn", "Asian Porn"),
        ("non-h", "Non-H"),
        ("western", "Western"),
        ("misc", "Misc"),
    ];
    let r = option_list(&pairs);
    assert(pairs@.map_values(|p: (&str, &str)| (p.0@, p.1@)) =~= category_options_table());
    r
}

/// The category filter offers exactly the categories the exclusion mask
/// knows: its option `i` is the mask's category `(i + 1) % 10`.
pub proof fn lemma_category_options_match_bits()
    ensures
        category_options_table().len() == category_bits().len(),
        forall|i: int|
            0 <= i < 10 ==> #[trigger] category_options_table()[i].0 == category_bits()[(i + 1)
                % 10].0,
{
    assert forall|i: int| 0 <= i < 10 implies #[trigger] category_options_table()[i].0
        == category_bits()[(i + 1) % 10].0 by {
        if i < 9 {
            assert((i + 1) % 10 == i + 1);
        } else {
            assert((i + 1) % 10 == 0);
        }
    }
}

/// The search filters: categories to show, and an uploader.
pub open spec fn filters_table() -> Seq<
    (Seq<char>, Seq<char>, FilterKind, Seq<(Seq<char>, Seq<char>)>, Option<Seq<char>>, Option<Seq<char>>, bool),
> {
    seq![
        ("categories"@, "Categories"@, FilterKind::MultiSelect, category_options_table(), None, None, false),
        ("uploader"@, "Uploader"@, FilterKind::Text, Seq::empty(), Some("Uploader name"@), None, false),
    ]
}

/// The search filters: a multi-select of categories and an uploader name.
pub fn filters() -> (r: Vec<Filter>)
    ensures
        filters_view(r@) == filters_table(),
{
    let r = vec![
        choice_filter("categories", "Categories", FilterKind::MultiSelect, category_options(), None, false),
        text_filter("uploader", "Uploader", Some("Uploader name")),
    ];
    assert(filters_view(r@) =~= filters_table());
    r
}

/// The homepage rows: `(id, title, layout, paginable)`; the popular list
/// is a live snapshot with no pager of its own.
pub open spec fn homepage_table() -> Seq<(Seq<char>, Seq<char>, SectionLayout, bool)> {
    seq![
        ("latest"@, "Latest"@, SectionLayout::TripleRow, true),
        ("popular"@, "Popular Now"@, SectionLayout::SingleRow, false),
    ]
}

/// A row is shown when its listing was read and has cards.
pub open spec fn listing_shown(listing: Option<Vec<MangaSimple>>) -> bool {
    listing matches Some(v) && v@.len() > 0
}

/// The cards of a read listing.
pub open spec fn listing_cards(listing: Option<Vec<MangaSimple>>) -> Seq<MangaSimple> {
    match listing {
        Some(v) => v@,
        None => Seq::empty(),
    }
}

/// The indices, below `n`, of the rows that are shown.
pub open spec fn shown_listings(listings: Seq<Option<Vec<MangaSimple>>>, n: int) -> Seq<int>
    decreases n,
{
    if n <= 0 {
        Seq::empty()
    } else {
        let prev = shown_listings(listings, n - 1);
        if listing_shown(listings[n - 1]) {
            prev.push(n - 1)
        } else {
            prev
        }
    }
}

#[verifier::spinoff_prover]
/// The homepage from the first page of each of its two listings (in the
/// order of `homepage_sections`; `None` when it could not be read): a row is
/// shown, in order, exactly when its listing has cards.
pub fn homepage(listings: Vec<Option<Vec<MangaSimple>>>) -> (r: Vec<HomepageSection>)
    requires
        listings@.len() == 2,
    ensures
        r@.len() == shown_listings(listings@, 2).len(),
        forall|k: int|
            0 <= k < r@.len() ==> {
                let i = shown_listings(listings@, 2)[k];
                &&& section_head(#[trigger] r@[k]) == homepage_table()[i]
                &&& r@[k].items@ == listing_cards(listings@[i])
            },
{
    let heads = homepage_sections();
    let ghost all = listings@;
    let mut rest = listings;
    let mut out: Vec<HomepageSection> = Vec::new();
    let mut i: usize = 0;
    while i < 2
        invariant
            i <= 2,
            heads@.len() == 2,
            heads@[0].0@ == "latest"@ && heads@[0].1@ == "Latest"@ && heads@[0].2 == SectionLayout::TripleRow,
            heads@[1].0@ == "popular"@ && heads@[1].1@ == "Popular Now"@ && heads@[1].2
                == SectionLayout::SingleRow,
            all.len() == 2,
            rest@ == all.skip(i as int),
            out@.len() == shown_listings(all, i as int).len(),
            forall|k: int|
                0 <= k < out@.len() ==> {
                    let j = shown_listings(all, i as int)[k];
                    &&& section_head(#[trigger] out@[k]) == homepage_table()[j]
                    &&& out@[k].items@ == listing_cards(all[j])
                },
        decreases 2 - i,
    {
        let listing = rest.remove(0);
        assert(listing == all[i as int]);
        let ghost before = out@;
        let (id, title, layout) = heads[i];
        match listing {
            Some(items) => {
                if items.len() > 0 {
                    let paginable = section_is_paginable(id);
                    proof {
                        reveal_strlit("latest");
                        reveal_strlit("popular");
                    }
                    out.push(HomepageSection { id: owned(id), title: owned(title), layout, items, paginable });
                    assert forall|k: int| 0 <= k < out@.len() implies {
                        let j = shown_listings(all, i + 1)[k];
                        &&& section_head(#[trigger] out@[k]) == homepage_table()[j]
                        &&& out@[k].items@ == listing_cards(all[j])
                    } by {
                        if k < before.len() {
                            assert(out@[k] == before[k]);
                        }
                    }
                }
            },
            None => {},
        }
        assert(rest@ =~= all.skip(i + 1));
        i += 1;
    }
    out
}

} // verus!
