use extension_nsfw::model::{FilterKind, SectionLayout, SettingKind, SourceError, SourceMethod};
use extension_nsfw::sources::ehentai::api::{GDataResponse, GMetadata, ShowPageResponse};
use extension_nsfw::sources::ehentai::listing::{
    CursorCache, ListingStep, ListingWalk, WalkPhase, listing_page, with_cursor,
};
use extension_nsfw::sources::ehentai::parse::{
    add_row, gallery_id, next_cursor, with_covers, parse_file_count, parse_image_keys, parse_image_src, parse_listing,
    parse_mpv_keys, parse_showkey, parse_thumbs, split_id, tag_label, tag_namespace,
};
use extension_nsfw::sources::ehentai::source::{
    ImageKeyWalk, KeyStep, PagesWalk, category_exclusion, category_options, filters, homepage, info, settings, first_image_url, gallery_chapter, gdata_request,
    manga_from_gdata, page_from_showpage, rate_limits, search_url, section_is_paginable, section_url,
    session_cookies, tags_in, uploader_term,
};

#[test]
fn reads_both_halves_of_a_gallery_id() {
    assert_eq!(
        gallery_id("https://e-hentai.org/g/4082076/e13e002e86/").as_deref(),
        Some("4082076/e13e002e86")
    );
    assert_eq!(gallery_id("https://e-hentai.org/uploader/bob"), None);
}

#[test]
fn takes_the_last_next_cursor_on_the_page() {
    let html = r#"<a href="/?next=100">x</a> <a href="/?f_search=y&next=4074206">n</a>"#;
    assert_eq!(next_cursor(html).as_deref(), Some("4074206"));
    assert_eq!(next_cursor("<a>no pager</a>"), None);
}

#[test]
fn keeps_image_keys_in_page_order_and_ignores_other_galleries() {
    let html = r#"
            <a href="https://e-hentai.org/s/0c160a1b54/4082076-2">2</a>
            <a href="https://e-hentai.org/s/1211073658/4082076-1">1</a>
            <a href="https://e-hentai.org/s/deadbeef00/9999999-1">other</a>
        "#;

    assert_eq!(
        parse_image_keys(html, 4082076),
        vec![(1, "1211073658".to_owned()), (2, "0c160a1b54".to_owned())]
    );
}

#[test]
fn reads_the_image_url_out_of_an_img_tag() {
    let html = r#"<a><img id="img" src="https://x.hath.network:43456/h/a-b/keystamp=1-2/f.webp" style="w"/></a>"#;
    assert_eq!(
        parse_image_src(html).as_deref(),
        Some("https://x.hath.network:43456/h/a-b/keystamp=1-2/f.webp")
    );
}

#[test]
fn splits_namespaced_tags() {
    assert_eq!(tag_namespace("artist:foo"), "artist");
    assert_eq!(tag_label("artist:foo"), "foo");
    assert_eq!(tag_label("bare"), "bare");
}

#[test]
fn gallery_ids_split_into_number_and_token() {
    assert_eq!(split_id("4082076/e13e002e86").unwrap(), (4082076, "e13e002e86".to_owned()));
    match split_id("nope") {
        Err(SourceError::Parse { message }) => assert_eq!(message, "malformed gallery id: nope"),
        _ => panic!("expected a parse error"),
    }
}

const LISTING: &str = r#"<html><body>
<table class="itg gltc"><tbody>
<tr>
  <td class="gl2c"><div class="glthumb"><img data-src="https://ehgt.org/t/1.webp" src="data:x"></div></td>
  <td class="gl3c glname"><a href="https://e-hentai.org/g/111/aaa/"><div class="glink">  First Gallery </div></a></td>
</tr>
<tr>
  <td class="gl2c"><div class="glthumb"><img src="https://ehgt.org/t/2.webp"></div></td>
  <td class="gl3c glname"><a href="https://e-hentai.org/g/222/bbb/"><div class="glink">Second</div></a></td>
</tr>
<tr>
  <td class="gl3c glname"><a href="https://e-hentai.org/g/111/aaa/"><div class="glink">Duplicate</div></a></td>
</tr>
</tbody></table>
<a href="https://e-hentai.org/?next=222">Next</a>
</body></html>"#;

#[test]
fn parses_a_listing_with_covers_by_row_and_no_duplicates() {
    let (items, cursor) = parse_listing(LISTING).unwrap();
    assert_eq!(items.len(), 2);
    assert_eq!(items[0].id, "111/aaa");
    assert_eq!(items[0].title, "First Gallery");
    assert_eq!(items[0].cover_url, "https://ehgt.org/t/1.webp");
    assert_eq!(items[1].id, "222/bbb");
    assert_eq!(items[1].cover_url, "https://ehgt.org/t/2.webp");
    assert!(items[1].description.is_none());
    assert_eq!(cursor.as_deref(), Some("222"));
    assert_eq!(parse_thumbs(LISTING).unwrap(), vec!["https://ehgt.org/t/1.webp", "https://ehgt.org/t/2.webp"]);
    let (empty, none) = parse_listing("<p>nothing</p>").unwrap();
    assert!(empty.is_empty());
    assert!(none.is_none());
}

#[test]
fn reads_the_file_count_showkey_and_viewer_keys() {
    assert_eq!(parse_file_count(r#"<td class="gdt2">37 pages</td>"#), Some(37));
    assert_eq!(parse_file_count("<p>none</p>"), None);
    assert_eq!(parse_showkey(r#"var showkey="abc123def";"#).as_deref(), Some("abc123def"));
    assert_eq!(parse_showkey("var x = 1;"), None);
    let mpv = r#"var imagelist = [{"n":"a.jpg","k":"k1","t":"x"},{"n":"b.jpg","k":"k2","t":"y"}];"#;
    assert_eq!(parse_mpv_keys(mpv), vec![(1, "k1".to_owned()), (2, "k2".to_owned())]);
}

#[test]
fn cursors_are_remembered_per_listing_and_page() {
    let mut cache = CursorCache::new();
    assert_eq!(cache.known_cursor("https://e-hentai.org/", 2), None);
    cache.remember_cursor("https://e-hentai.org/", 2, "100");
    cache.remember_cursor("https://e-hentai.org/popular", 2, "7");
    cache.remember_cursor("https://e-hentai.org/", 2, "101");
    assert_eq!(cache.known_cursor("https://e-hentai.org/", 2).as_deref(), Some("101"));
    assert_eq!(cache.known_cursor("https://e-hentai.org/popular", 2).as_deref(), Some("7"));
    assert_eq!(cache.known_cursor("https://e-hentai.org/", 3), None);
    assert_eq!(with_cursor("https://e-hentai.org/", "5"), "https://e-hentai.org/?next=5");
    assert_eq!(with_cursor("https://e-hentai.org/?f_search=x", "5"), "https://e-hentai.org/?f_search=x&next=5");
}

fn card(id: &str) -> extension_nsfw::model::MangaSimple {
    extension_nsfw::model::MangaSimple { id: id.to_owned(), title: id.to_owned(), cover_url: String::new(), description: None }
}

#[test]
fn a_walk_to_page_three_steps_through_the_cursors() {
    let base = "https://e-hentai.org/";
    let mut cache = CursorCache::new();
    let (mut walk, url) = ListingWalk::start(base, 3, &cache);
    assert_eq!(walk.phase, WalkPhase::Seed);
    assert_eq!(url, base);
    let step = walk.step(&mut cache, vec![card("a")], Some("100".to_owned()));
    let url = match step {
        ListingStep::Fetch(u) => u,
        ListingStep::Done(..) => panic!("expected a fetch"),
    };
    assert_eq!(url, "https://e-hentai.org/?next=100");
    let step = walk.step(&mut cache, vec![card("b")], Some("200".to_owned()));
    let url = match step {
        ListingStep::Fetch(u) => u,
        ListingStep::Done(..) => panic!("expected a fetch"),
    };
    assert_eq!(url, "https://e-hentai.org/?next=200");
    match walk.step(&mut cache, vec![card("c")], Some("300".to_owned())) {
        ListingStep::Done(items, next) => {
            assert_eq!(items[0].id, "c");
            assert_eq!(next.as_deref(), Some("300"));
        },
        ListingStep::Fetch(_) => panic!("expected the page"),
    }
    assert_eq!(cache.known_cursor(base, 3).as_deref(), Some("200"));
    assert_eq!(cache.known_cursor(base, 4).as_deref(), Some("300"));
    let (walk, url) = ListingWalk::start(base, 3, &cache);
    assert_eq!(walk.phase, WalkPhase::Known);
    assert_eq!(url, "https://e-hentai.org/?next=200");
    let (walk, url) = ListingWalk::start(base, 0, &cache);
    assert_eq!(walk.page, 1);
    assert_eq!(walk.phase, WalkPhase::First);
    assert_eq!(url, base);
}

#[test]
fn a_walk_past_the_last_page_comes_back_empty() {
    let base = "https://e-hentai.org/popular";
    let mut cache = CursorCache::new();
    let (mut walk, _) = ListingWalk::start(base, 5, &cache);
    match walk.step(&mut cache, vec![card("a")], None) {
        ListingStep::Done(items, next) => {
            assert!(items.is_empty());
            assert!(next.is_none());
        },
        ListingStep::Fetch(_) => panic!("a listing without a cursor has no further pages"),
    }
}

#[test]
fn image_keys_come_from_the_grid_until_the_count() {
    let (mut walk, url) = ImageKeyWalk::start(42, "tok", false);
    assert_eq!(url, "https://e-hentai.org/g/42/tok/");
    let first = r#"<td class="gdt2">3 pages</td>
        <a href="https://e-hentai.org/s/k2/42-2">2</a>
        <a href="https://e-hentai.org/s/k1/42-1">1</a>"#;
    let url = match walk.after_grid_page(first) {
        KeyStep::Fetch(u) => u,
        KeyStep::Done(_) => panic!("two of three keys"),
    };
    assert_eq!(url, "https://e-hentai.org/g/42/tok/?p=1");
    let second = r#"<a href="https://e-hentai.org/s/k3/42-3">3</a><a href="https://e-hentai.org/s/k1/42-1">1</a>"#;
    match walk.after_grid_page(second) {
        KeyStep::Done(keys) => assert_eq!(
            keys,
            vec![(1, "k1".to_owned()), (2, "k2".to_owned()), (3, "k3".to_owned())]
        ),
        KeyStep::Fetch(_) => panic!("all keys found"),
    }
}

#[test]
fn members_read_the_viewer_first() {
    let (mut walk, url) = ImageKeyWalk::start(42, "tok", true);
    assert_eq!(url, "https://e-hentai.org/mpv/42/tok/");
    match walk.after_viewer(Some("no list here")) {
        KeyStep::Fetch(u) => assert_eq!(u, "https://e-hentai.org/g/42/tok/"),
        KeyStep::Done(_) => panic!("the viewer listed nothing"),
    }
}

#[test]
fn sections_searches_and_sessions() {
    assert_eq!(section_url("latest").unwrap(), "https://e-hentai.org/");
    assert_eq!(section_url("popular").unwrap(), "https://e-hentai.org/popular");
    match section_url("x") {
        Err(SourceError::Parse { message }) => assert_eq!(message, "unknown section x"),
        _ => panic!("expected a parse error"),
    }
    assert!(section_is_paginable("latest"));
    assert!(!section_is_paginable("popular"));
    assert_eq!(category_exclusion(&[]), None);
    assert_eq!(category_exclusion(&["manga".to_owned(), "doujinshi".to_owned()]), Some(1023 - 6));
    assert_eq!(uploader_term("bob").as_deref(), Some("uploader:bob"));
    assert_eq!(uploader_term(""), None);
    assert_eq!(
        search_url("elf", &["manga".to_owned()], Some("uploader%3Abob")),
        "https://e-hentai.org/?f_search=elf&f_cats=1019&f_search=uploader%3Abob"
    );
    assert_eq!(session_cookies(" ", "x"), None);
    let c = session_cookies(" 12 ", "abc").unwrap();
    assert_eq!(c[0], "ipb_member_id=12; Domain=.e-hentai.org; Path=/");
    assert_eq!(c[1], "ipb_pass_hash=abc; Domain=.e-hentai.org; Path=/");
    let limits = rate_limits();
    assert_eq!(limits.iter().map(|l| l.per_minute).min(), Some(4));
}

fn meta(error: Option<&str>) -> GMetadata {
    GMetadata {
        gid: 1,
        token: "t".to_owned(),
        title: "Title".to_owned(),
        title_jpn: "タイトル".to_owned(),
        category: "Manga".to_owned(),
        thumb: "https://ehgt.org/thumb.jpg".to_owned(),
        uploader: "u".to_owned(),
        posted: "1700000000".to_owned(),
        filecount: "3".to_owned(),
        rating: "4.5".to_owned(),
        tags: vec!["artist:bob".to_owned(), "group:circle".to_owned(), "female:elf".to_owned()],
        error: error.map(|e| e.to_owned()),
    }
}

#[test]
fn gallery_metadata_becomes_a_manga() {
    let m = manga_from_gdata("1/t", GDataResponse { gmetadata: vec![meta(None)] }).unwrap();
    assert_eq!(m.title, "Title");
    assert_eq!(m.description, "タイトル");
    assert_eq!(m.author, vec!["circle"]);
    assert_eq!(m.artist, vec!["bob"]);
    assert_eq!(m.tags[2].id, "female:elf");
    assert_eq!(m.tags[2].label, "elf");
    assert_eq!(m.rating.as_deref(), Some("4.5"));
    match manga_from_gdata("1/t", GDataResponse { gmetadata: vec![] }) {
        Err(SourceError::NotFound { message }) => assert_eq!(message, "no gallery 1/t"),
        _ => panic!("expected not found"),
    }
    match manga_from_gdata("1/t", GDataResponse { gmetadata: vec![meta(Some("Key missing"))] }) {
        Err(SourceError::NotFound { message }) => assert_eq!(message, "Key missing"),
        _ => panic!("expected not found"),
    }
    assert_eq!(tags_in(&["artist:a".to_owned(), "x".to_owned(), "artist:b".to_owned()], "artist"), vec!["a", "b"]);
}

#[test]
fn requests_chapters_and_pages() {
    let req = gdata_request("4082076/e13e002e86").unwrap();
    assert_eq!(req.method, "gdata");
    assert_eq!(req.gidlist, vec![(4082076, "e13e002e86".to_owned())]);
    assert_eq!(req.namespace, 1);
    let c = gallery_chapter("4082076/e13e002e86").unwrap();
    assert_eq!(c.url, "https://e-hentai.org/g/4082076/e13e002e86/");
    assert_eq!(c.title, "Gallery");
    assert_eq!(
        first_image_url(42, &[(3, "abc".to_owned())]).unwrap(),
        "https://e-hentai.org/s/abc/42-3"
    );
    match first_image_url(42, &[]) {
        Err(SourceError::Parse { message }) => assert_eq!(message, "gallery listed no images"),
        _ => panic!("expected a parse error"),
    }
    let ok = ShowPageResponse { i3: r#"<img id="img" src="https://h/x.jpg">"#.to_owned(), error: None };
    let page = page_from_showpage(4, &ok).unwrap().unwrap();
    assert_eq!(page.number, 4);
    assert_eq!(page.image_url, "https://h/x.jpg");
    let bad = ShowPageResponse { i3: String::new(), error: Some("nope".to_owned()) };
    assert!(page_from_showpage(1, &bad).is_err());
}

#[test]
fn pages_walk_fetches_the_first_image_then_one_call_per_later_key() {
    let keys = vec![(1, "k1".to_owned()), (2, "k2".to_owned()), (3, "k3".to_owned())];
    let (mut walk, url) = PagesWalk::start(42, keys).ok().unwrap();
    assert_eq!(url, "https://e-hentai.org/s/k1/42-1");
    let first = r#"var showkey="sk9"; <img id="img" src="https://h/1.jpg">"#;
    walk.after_first(first).ok().unwrap();
    let mut calls = 0;
    let answers = [
        ShowPageResponse { i3: r#"<img id="img" src="https://h/2.jpg">"#.to_owned(), error: None },
        ShowPageResponse { i3: "<p>gone</p>".to_owned(), error: None },
    ];
    while let Some(req) = walk.request() {
        assert_eq!(req.method, "showpage");
        assert_eq!(req.gid, 42);
        assert_eq!(req.showkey, "sk9");
        assert_eq!(req.page, calls + 2);
        assert_eq!(req.imgkey, format!("k{}", calls + 2));
        let answer = &answers[calls as usize];
        walk.after_showpage(answer).ok().unwrap();
        calls += 1;
    }
    assert_eq!(calls, 2);
    let pages = walk.into_pages();
    assert_eq!(pages.len(), 2);
    assert_eq!((pages[0].number, pages[0].image_url.as_str()), (0, "https://h/1.jpg"));
    assert_eq!((pages[1].number, pages[1].image_url.as_str()), (1, "https://h/2.jpg"));
}

#[test]
fn pages_walk_reports_each_failure() {
    match PagesWalk::start(42, Vec::new()) {
        Err(SourceError::Parse { message }) => assert_eq!(message, "gallery listed no images"),
        _ => panic!("expected a parse error"),
    }
    let (mut walk, _) = PagesWalk::start(42, vec![(1, "k1".to_owned())]).ok().unwrap();
    match walk.after_first("<p>no key</p>") {
        Err(SourceError::Parse { message }) => assert_eq!(message, "no showkey on the image page"),
        _ => panic!("expected a parse error"),
    }
    let (mut walk, _) = PagesWalk::start(42, vec![(1, "a".to_owned()), (2, "b".to_owned())]).ok().unwrap();
    walk.after_first(r#"var showkey="s";"#).ok().unwrap();
    assert!(walk.request().is_some());
    let bad = ShowPageResponse { i3: String::new(), error: Some("quota".to_owned()) };
    match walk.after_showpage(&bad) {
        Err(SourceError::Parse { message }) => assert_eq!(message, "quota"),
        _ => panic!("expected a parse error"),
    }
    assert!(walk.request().is_none());
    assert!(walk.into_pages().is_empty());
}

#[test]
fn listing_pages_have_a_next_page_exactly_with_a_cursor() {
    let page = listing_page(vec![card("1")], Some("99".to_owned()));
    assert!(page.has_next);
    assert_eq!(page.items.len(), 1);
    assert!(!listing_page(Vec::new(), None).has_next);
}

#[test]
fn ehentai_declares_its_id_and_hosts() {
    let i = info();
    assert_eq!(i.id, "org.ehentai");
    assert_eq!(i.name, "E-Hentai");
    assert_eq!(i.version, "1.0");
    assert_eq!(i.language, "multi");
    assert_eq!(i.base_url, "https://e-hentai.org");
    assert_eq!(i.hosts, vec!["e-hentai.org", "api.e-hentai.org", "ehgt.org", "*.hath.network"]);
    assert!(i.nsfw);
}

#[test]
fn rate_limits_list_each_method_once_in_order() {
    let limits: Vec<(SourceMethod, u32)> = rate_limits().iter().map(|l| (l.method, l.per_minute)).collect();
    assert_eq!(
        limits,
        vec![
            (SourceMethod::Homepage, 10),
            (SourceMethod::Search, 20),
            (SourceMethod::Section, 20),
            (SourceMethod::Manga, 30),
            (SourceMethod::Chapters, 60),
            (SourceMethod::Pages, 4),
        ]
    );
}

#[test]
fn ehentai_settings_are_the_two_session_cookies() {
    let all = settings();
    assert_eq!(all.len(), 2);
    assert_eq!((all[0].key.as_str(), all[0].label.as_str(), all[0].kind), ("ipb_member_id", "Member ID", SettingKind::Secret));
    assert_eq!((all[1].key.as_str(), all[1].label.as_str(), all[1].kind), ("ipb_pass_hash", "Pass Hash", SettingKind::Secret));
    assert_eq!(all[1].description, "Optional. From the ipb_pass_hash cookie.");
    assert!(all[0].description.contains("multi-page viewer"));
    let options = category_options();
    assert_eq!(options.len(), 10);
    assert_eq!((options[0].id.as_str(), options[0].label.as_str()), ("doujinshi", "Doujinshi"));
    assert_eq!((options[9].id.as_str(), options[9].label.as_str()), ("misc", "Misc"));
}

#[test]
fn each_single_category_masks_off_the_other_nine() {
    let bits = [
        ("misc", 1), ("doujinshi", 2), ("manga", 4), ("artistcg", 8), ("gamecg", 16),
        ("imageset", 32), ("cosplay", 64), ("asianporn", 128), ("non-h", 256), ("western", 512),
    ];
    for (id, bit) in bits {
        assert_eq!(category_exclusion(&[id.to_owned()]), Some(1023 - bit));
    }
    let offered: Vec<String> = category_options().into_iter().map(|o| o.id).collect();
    for (id, _) in bits {
        assert!(offered.iter().any(|o| o == id));
    }
}

#[test]
fn ehentai_filters_are_categories_and_uploader() {
    let all = filters();
    assert_eq!(all.len(), 2);
    assert_eq!((all[0].id.as_str(), all[0].label.as_str(), all[0].kind), ("categories", "Categories", FilterKind::MultiSelect));
    assert_eq!(all[0].options.len(), 10);
    assert_eq!((all[1].id.as_str(), all[1].kind), ("uploader", FilterKind::Text));
    assert_eq!(all[1].placeholder.as_deref(), Some("Uploader name"));
}

#[test]
fn ehentai_homepage_keeps_listings_with_cards() {
    let home = homepage(vec![Some(vec![card("1"), card("2")]), Some(Vec::new())]);
    assert_eq!(home.len(), 1);
    assert_eq!((home[0].id.as_str(), home[0].title.as_str(), home[0].layout), ("latest", "Latest", SectionLayout::TripleRow));
    assert!(home[0].paginable);
    assert_eq!(home[0].items.len(), 2);
    let home = homepage(vec![None, Some(vec![card("3")])]);
    assert_eq!(home.len(), 1);
    assert_eq!(home[0].id, "popular");
    assert!(!home[0].paginable);
}

#[test]
fn the_last_page_number_can_start_a_walk() {
    let cache = CursorCache::new();
    let (walk, url) = ListingWalk::start("https://e-hentai.org/", u32::MAX, &cache);
    assert_eq!(walk.phase, WalkPhase::Seed);
    assert_eq!(walk.page, u32::MAX);
    assert_eq!(url, "https://e-hentai.org/");
}

#[test]
fn listing_rows_and_covers_from_parts() {
    let mut items = Vec::new();
    add_row(&mut items, Some("https://e-hentai.org/g/12/ab/".to_owned()), Some(" One ".to_owned()));
    add_row(&mut items, Some("https://e-hentai.org/g/12/ab/?p=1".to_owned()), Some("Again".to_owned()));
    add_row(&mut items, Some("https://e-hentai.org/tag/x".to_owned()), Some("Tag".to_owned()));
    add_row(&mut items, Some("https://e-hentai.org/g/34/cd/".to_owned()), None);
    add_row(&mut items, None, Some("Nothing".to_owned()));
    add_row(&mut items, Some("https://e-hentai.org/g/56/ef/".to_owned()), Some("Two".to_owned()));
    let ids: Vec<&str> = items.iter().map(|m| m.id.as_str()).collect();
    assert_eq!(ids, vec!["12/ab", "56/ef"]);
    assert_eq!(items[0].title, "One");
    let covered = with_covers(&items, &vec!["https://t/1.jpg".to_owned()]);
    assert_eq!(covered[0].cover_url, "https://t/1.jpg");
    assert_eq!(covered[1].cover_url, "");
    assert_eq!(covered[1].title, "Two");
}
