use extension_nsfw::model::{FilterKind, SectionLayout, SelectOption, SettingKind, SourceError, SourceMethod, Status};
use extension_nsfw::sources::nhentai::api::{
    EndpointClass, GalleryTag, GalleryTitle, V2GalleryAsset, V2GalleryDetailResponse,
    V2GalleryListItem, V2GalleryPageAsset, V2SearchResponse, V2TagEntry,
};
use extension_nsfw::sources::nhentai::source::{
    auth_header, base_query, filters, homepage, info, settings, gallery_manga, gallery_pages, homepage_sections, listing_url,
    oneshot_chapter, rate_limits, result_page, search_query, search_text_filters, search_url,
    section_sort, tag_filter_options,
};
use extension_nsfw::sources::nhentai::util::{
    apply_global_query_settings, apply_language_preference, build_image_url, format_tag_label,
    format_tag_type, get_endpoint_rate_limit, map_galleries, opts, pretty_title, tag_priority,
};

#[test]
fn strips_the_metadata_around_a_title() {
    assert_eq!(
        pretty_title("[Yamada Gogogo] Erolibrary (COMIC Anthurium 2019-01) [English] {Hennojin}"),
        "Erolibrary"
    );
    assert_eq!(pretty_title("(C97) [Circle] Title Here [English]"), "Title Here");
}

#[test]
fn leaves_a_bare_title_alone() {
    assert_eq!(pretty_title("Just A Title"), "Just A Title");
}

#[test]
fn handles_nesting_and_strays() {
    assert_eq!(pretty_title("[Artist [Circle]] Title"), "Title");
    assert_eq!(pretty_title("Title] Extra"), "Title Extra");
}

#[test]
fn keeps_a_title_that_is_all_metadata() {
    assert_eq!(pretty_title("[Artist Only]"), "[Artist Only]");
}

#[test]
fn pretty_title_collapses_inner_whitespace_and_trims_a_metadata_only_title() {
    assert_eq!(pretty_title("  A   [x]  B  "), "A B");
    assert_eq!(pretty_title("  [only]  "), "[only]");
    assert_eq!(pretty_title(""), "");
}

#[test]
fn endpoint_limits_match_the_published_table() {
    assert_eq!(get_endpoint_rate_limit(EndpointClass::Search, false), 10);
    assert_eq!(get_endpoint_rate_limit(EndpointClass::Search, true), 20);
    assert_eq!(get_endpoint_rate_limit(EndpointClass::GalleryDetail, false), 20);
    assert_eq!(get_endpoint_rate_limit(EndpointClass::GalleryDetail, true), 45);
    assert_eq!(get_endpoint_rate_limit(EndpointClass::Media, true), 240);
    assert_eq!(get_endpoint_rate_limit(EndpointClass::Captcha, false), 6);
    assert_eq!(get_endpoint_rate_limit(EndpointClass::Related, false), 12);
}

#[test]
fn method_budgets_fit_the_endpoint_ceilings() {
    for keyed in [false, true] {
        let limits = rate_limits(keyed);
        assert_eq!(limits.len(), 5);
        let get = |m: SourceMethod| limits.iter().find(|l| l.method == m).unwrap().per_minute;
        let homepage = get(SourceMethod::Homepage);
        let search = get(SourceMethod::Search);
        let section = get(SourceMethod::Section);
        assert!(homepage * 5 + search + section <= get_endpoint_rate_limit(EndpointClass::Search, keyed));
        assert!(get(SourceMethod::Manga) + get(SourceMethod::Pages)
            <= get_endpoint_rate_limit(EndpointClass::GalleryDetail, keyed));
        assert!(limits.iter().all(|l| l.method != SourceMethod::Chapters));
    }
    assert_eq!(rate_limits(false)[0].per_minute, 1);
    assert_eq!(rate_limits(true)[0].per_minute, 2);
    assert_eq!(rate_limits(false)[3].per_minute, 10);
    assert_eq!(rate_limits(true)[4].per_minute, 22);
}

#[test]
fn language_preference_is_appended_quoted() {
    assert_eq!(apply_language_preference("elf".to_owned(), "english"), "elf \"english\"");
    assert_eq!(apply_language_preference("  elf ".to_owned(), "all"), "elf");
    assert_eq!(apply_language_preference("".to_owned(), ""), "\"\"");
    assert_eq!(apply_language_preference(" ".to_owned(), "all"), "\"\"");
}

#[test]
fn global_settings_extend_the_query() {
    assert_eq!(
        apply_global_query_settings(String::new(), "japanese", "sole female", "-guro"),
        "language:japanese sole female -guro"
    );
    assert_eq!(apply_global_query_settings(String::new(), "all", "", ""), "");
}

#[test]
fn image_urls_go_on_the_right_cdn() {
    assert_eq!(build_image_url("/galleries/1/cover.jpg", true), "https://t.nhentai.net/galleries/1/cover.jpg");
    assert_eq!(build_image_url("galleries/1/1.jpg", false), "https://i.nhentai.net/galleries/1/1.jpg");
    assert_eq!(build_image_url("https://x/y.png", false), "https://x/y.png");
}

#[test]
fn tag_labels_and_priorities() {
    assert_eq!(format_tag_type("category"), "Type");
    assert_eq!(format_tag_type("character"), "Character");
    assert_eq!(format_tag_type("parody"), "Parody");
    assert_eq!(format_tag_type(""), "");
    assert_eq!(format_tag_label("tag", "glasses"), "glasses");
    assert_eq!(format_tag_label("artist", "bob"), "Artist: bob");
    assert_eq!(tag_priority("category"), 1);
    assert_eq!(tag_priority("language"), 2);
    assert_eq!(tag_priority("tag"), 5);
    assert_eq!(tag_priority("group"), 6);
}

#[test]
fn opts_use_the_label_as_id() {
    let o = opts(&["a", "b"]);
    assert_eq!(o.len(), 2);
    assert_eq!(o[1].id, "b");
    assert_eq!(o[1].label, "b");
}

fn list_item(id: u32, en: Option<&str>, jp: Option<&str>) -> V2GalleryListItem {
    V2GalleryListItem {
        id,
        media_id: "m".to_owned(),
        thumbnail: "/galleries/m/thumb.jpg".to_owned(),
        thumbnail_width: 1,
        thumbnail_height: 1,
        english_title: en.map(|s| s.to_owned()),
        japanese_title: jp.map(|s| s.to_owned()),
        tag_ids: vec![],
        num_pages: None,
        num_favorites: None,
        blacklisted: None,
    }
}

#[test]
fn gallery_cards_use_the_cleaned_best_title() {
    let cards = map_galleries(vec![
        list_item(177013, Some("[A] Title [English]"), Some("jp")),
        list_item(5, None, Some("日本")),
        list_item(6, None, None),
    ]);
    assert_eq!(cards[0].id, "177013");
    assert_eq!(cards[0].title, "Title");
    assert_eq!(cards[0].cover_url, "https://t.nhentai.net/galleries/m/thumb.jpg");
    assert_eq!(cards[1].title, "日本");
    assert_eq!(cards[2].title, "Untitled");
    assert!(cards[2].description.is_none());
}

#[test]
fn result_pages_know_when_more_follow() {
    let res = V2SearchResponse { result: Some(vec![list_item(1, Some("x"), None)]), num_pages: 3, per_page: 25, total: None, error: None };
    let page = result_page(2, res);
    assert!(page.has_next);
    assert_eq!(page.items.len(), 1);
    let last = V2SearchResponse { result: None, num_pages: 3, per_page: 25, total: None, error: None };
    let page = result_page(3, last);
    assert!(!page.has_next);
    assert!(page.items.is_empty());
}

#[test]
fn sections_map_to_sorts() {
    assert_eq!(section_sort("latest").unwrap(), "date");
    assert_eq!(section_sort("popular_all").unwrap(), "popular");
    match section_sort("nope") {
        Err(SourceError::Parse { message }) => assert_eq!(message, "Unknown section ID"),
        _ => panic!("expected a parse error"),
    }
    let secs = homepage_sections();
    assert_eq!(secs.len(), 5);
    assert_eq!(secs[2].3, "popular-week");
    assert_eq!(section_sort(secs[3].0).unwrap(), secs[3].3);
}

#[test]
fn listing_and_search_urls() {
    assert_eq!(base_query("  "), "*");
    assert_eq!(base_query("language%3Aenglish"), "language%3Aenglish");
    assert_eq!(
        listing_url("*", "date", Some(2)),
        "https://nhentai.net/api/v2/search?query=*&sort=date&page=2"
    );
    assert_eq!(listing_url("*", "popular", None), "https://nhentai.net/api/v2/search?query=*&sort=popular");
    assert_eq!(search_url("elf", 1), "https://nhentai.net/api/v2/search?query=elf&page=1");
}

#[test]
fn search_query_adds_tags_and_filters() {
    assert_eq!(search_text_filters(), vec!["artist", "group", "parody", "character", "pages", "favorites", "uploaded"]);
    let values = vec![
        Some("shindo l".to_owned()),
        Some(String::new()),
        None,
        None,
        Some(">20".to_owned()),
        None,
        Some("<7d".to_owned()),
    ];
    let q = search_query("elf", &vec!["big breasts".to_owned()], &vec!["guro".to_owned()], &values);
    assert_eq!(q, "elf \"big breasts\" -\"guro\" artist:\"shindo l\" pages:>20 uploaded:<7d");
    let none = vec![None, None, None, None, None, None, None];
    assert_eq!(search_query("", &vec![], &vec![], &none), "");
}

#[test]
fn auth_header_only_with_a_key() {
    assert_eq!(auth_header(""), None);
    assert_eq!(auth_header("abc").as_deref(), Some("Key abc"));
}

fn entry(name: &str) -> V2TagEntry {
    V2TagEntry { id: 1, tag_type: "tag".to_owned(), name: name.to_owned(), slug: String::new(), url: String::new(), count: 0 }
}

#[test]
fn tag_filter_options_are_sorted_and_unique() {
    let opts = tag_filter_options(vec![entry("sole female"), entry("big breasts"), entry("sole female"), entry("ahegao")]);
    let ids: Vec<&str> = opts.iter().map(|o| o.id.as_str()).collect();
    assert_eq!(ids, vec!["ahegao", "big breasts", "sole female"]);
    assert!(opts.iter().all(|o| o.id == o.label));
    assert!(tag_filter_options(vec![]).is_empty());
}

fn gtag(id: u32, ty: &str, name: &str) -> GalleryTag {
    GalleryTag { id, tag_type: ty.to_owned(), name: name.to_owned(), url: String::new(), count: 0 }
}

fn detail() -> V2GalleryDetailResponse {
    V2GalleryDetailResponse {
        id: 177013,
        media_id: "987".to_owned(),
        title: GalleryTitle { english: Some("[A] T [English]".to_owned()), japanese: None, pretty: Some("T".to_owned()) },
        cover: V2GalleryAsset { path: "/galleries/987/cover.jpg".to_owned(), width: 1, height: 1 },
        thumbnail: V2GalleryAsset { path: "/galleries/987/thumb.jpg".to_owned(), width: 1, height: 1 },
        tags: vec![
            gtag(10, "tag", "zeta"),
            gtag(11, "artist", "bob"),
            gtag(12, "language", "english"),
            gtag(13, "tag", "alpha"),
            gtag(14, "group", "circle"),
            gtag(15, "category", "doujinshi"),
        ],
        num_pages: 2,
        num_favorites: 4242,
        upload_date: 1700000000,
        pages: vec![
            V2GalleryPageAsset { path: "/galleries/987/1.jpg".to_owned(), width: 1, height: 1, number: 1, thumbnail: String::new(), thumbnail_width: 1, thumbnail_height: 1 },
            V2GalleryPageAsset { path: "/galleries/987/2.jpg".to_owned(), width: 1, height: 1, number: 2, thumbnail: String::new(), thumbnail_width: 1, thumbnail_height: 1 },
        ],
    }
}

#[test]
fn gallery_details_become_a_manga() {
    let m = gallery_manga(detail());
    assert_eq!(m.id, "177013");
    assert_eq!(m.title, "T");
    assert_eq!(m.author, vec!["bob", "circle"]);
    assert_eq!(m.artist, vec!["bob", "circle"]);
    let labels: Vec<&str> = m.tags.iter().map(|t| t.label.as_str()).collect();
    assert_eq!(labels, vec!["Type: doujinshi", "Language: english", "alpha", "zeta"]);
    assert_eq!(m.tags[0].id, "15");
    assert_eq!(m.cover_url, "https://t.nhentai.net/galleries/987/cover.jpg");
    assert_eq!(m.last_updated, "1700000000");
    assert_eq!(m.views, Some(4242));
    assert_eq!(m.status, Status::Completed);
    assert!(m.rating.is_none());
}

#[test]
fn gallery_pages_and_chapter() {
    let pages = gallery_pages(&detail());
    assert_eq!(pages.len(), 2);
    assert_eq!(pages[1].number, 1);
    assert_eq!(pages[1].image_url, "https://i.nhentai.net/galleries/987/2.jpg");
    let c = oneshot_chapter("177013");
    assert_eq!(c.url, "https://nhentai.net/g/177013/");
    assert_eq!(c.title, "Oneshot");
    assert_eq!(c.number, "1");
}

#[test]
fn cleaning_a_clean_title_changes_nothing() {
    for raw in [
        "[Artist] Title  (C99) [English]",
        "  [Only] (Metadata)  ",
        "Plain   title",
        "[a [b] c] d ) e",
        "",
    ] {
        let once = pretty_title(raw);
        assert_eq!(pretty_title(&once), once);
    }
    assert_eq!(pretty_title("  [Only] (Metadata)  "), "[Only] (Metadata)");
}

#[test]
fn nhentai_declares_its_id_and_hosts() {
    let i = info();
    assert_eq!((i.id.as_str(), i.name.as_str(), i.version.as_str()), ("net.nhentai.v2", "nHentai (V2)", "2.0"));
    assert_eq!((i.language.as_str(), i.base_url.as_str()), ("multi", "https://nhentai.net"));
    assert_eq!(i.hosts, vec!["nhentai.net", "api.nhentai.net"]);
    assert!(i.nsfw);
}

#[test]
fn nhentai_settings_are_language_key_and_global_tags() {
    let all = settings();
    let keys: Vec<(&str, SettingKind)> = all.iter().map(|s| (s.key.as_str(), s.kind)).collect();
    assert_eq!(
        keys,
        vec![
            ("language", SettingKind::Select),
            ("api_key", SettingKind::Secret),
            ("global_included", SettingKind::Text),
            ("global_excluded", SettingKind::Text),
        ]
    );
    let langs: Vec<&str> = all[0].options.iter().map(|o| o.label.as_str()).collect();
    assert_eq!(langs, vec!["All", "English", "Japanese", "Chinese"]);
    assert_eq!(all[2].label, "Global Included Tags");
    assert_eq!(all[3].description, "Removed from every search (e.g. -guro -\"ugly bastard\")");
}

#[test]
fn nhentai_filters_put_excludable_tags_first() {
    let tags = vec![SelectOption { id: "elf".to_owned(), label: "Elf".to_owned() }];
    let all = filters(tags);
    assert_eq!(all.len(), 8);
    assert_eq!((all[0].id.as_str(), all[0].kind, all[0].exclusion), ("tags", FilterKind::MultiSelect, true));
    assert_eq!(all[0].options[0].id, "elf");
    let ids: Vec<&str> = all[1..].iter().map(|f| f.id.as_str()).collect();
    assert_eq!(ids, vec!["artist", "group", "parody", "character", "pages", "favorites", "uploaded"]);
    assert_eq!(all[7].placeholder.as_deref(), Some("(e.g. <7d, >1m, <1y)"));
}

#[test]
fn nhentai_homepage_has_five_paginable_rows() {
    let reply = |items: Option<Vec<V2GalleryListItem>>| V2SearchResponse {
        result: items,
        num_pages: 1,
        per_page: 25,
        total: None,
        error: None,
    };
    let replies = vec![
        reply(Some(vec![list_item(7, Some("[A] Seven"), None)])),
        reply(None),
        reply(Some(Vec::new())),
        reply(None),
        reply(Some(vec![list_item(1, None, Some("One")), list_item(2, Some("Two"), None)])),
    ];
    let home = homepage(replies);
    let ids: Vec<&str> = home.iter().map(|s| s.id.as_str()).collect();
    assert_eq!(ids, vec!["latest", "popular_today", "popular_week", "popular_month", "popular_all"]);
    assert_eq!(home[0].layout, SectionLayout::TripleRow);
    assert!(home[1..].iter().all(|s| s.layout == SectionLayout::SingleRow));
    assert!(home.iter().all(|s| s.paginable));
    assert_eq!(home[0].items[0].id, "7");
    assert_eq!(home[0].items[0].title, "Seven");
    assert!(home[1].items.is_empty());
    assert_eq!(home[4].items.len(), 2);
}
