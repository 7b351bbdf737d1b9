use extension_nsfw::model::{FilterKind, SectionLayout, SelectOption, SettingKind, SourceError, Status};
use extension_nsfw::sources::hitomi::api::{HitomiAuthor, HitomiFileJson, HitomiGalleryJson, HitomiTagJson};
use extension_nsfw::sources::hitomi::source::{
    filters, gallery_manga, gallery_pages, homepage, homepage_sections, info, row_cards, settings, item_range, listing_page, manga_card,
    oneshot_chapter, search_nozomi_url, search_target, section_nozomi_url, user_query,
};
use extension_nsfw::sources::hitomi::util::{
    HitomiResolver, ParsedTag, extract_gallery_json, rank_tags, routes_from_cases, routes_from_list,
    tags_from_matches, get_nozomi_url, hash_splits, intersect_ids, nozomi_range,
    nozomi_tag_name, parse_nozomi, parse_tag_page, tag_page_urls, top_tags,
};

const GG: &str = "'use strict';\ngg = { m: function(g) { var o = 0; switch (g) {\ncase 3250:\ncase 17:\no = 1; break;\n} return o; },\ns: function(h) { return h; },\nb: '1763701202/'\n};";

#[test]
fn reads_the_router_from_case_labels() {
    let r = HitomiResolver::parse_gg(GG).unwrap();
    // "0a1b2c": the last character and the two before it read "cb2", route 3250,
    // which is listed, and `o` is 0: the image is matched.
    assert_eq!(
        r.get_image_uri("0a1b2c", "webp", false, false),
        "https://w2.gold-usergeneratedcontent.net/1763701202/3250/0a1b2c.webp"
    );
    assert_eq!(
        r.get_image_uri("0a1b2c", "avif", true, false),
        "https://btn.gold-usergeneratedcontent.net/avifbigtn/c/b2/0a1b2c.avif"
    );
    // "ffff00": route 0x0f0 = 240 is not listed.
    assert_eq!(
        r.get_image_uri("ffff00", "webp", false, false),
        "https://w1.gold-usergeneratedcontent.net/1763701202/240/ffff00.webp"
    );
    assert_eq!(
        r.get_image_uri("ffff00", "webp", true, true),
        "https://atn.gold-usergeneratedcontent.net/webpsmalltn/0/f0/ffff00.webp"
    );
    assert_eq!(r.get_image_uri("ab", "webp", false, false), "");
    // A tail that is not hex routes to 0.
    assert_eq!(
        r.get_image_uri("zzz", "", false, false),
        "https://w1.gold-usergeneratedcontent.net/1763701202/0/zzz."
    );
}

#[test]
fn reads_the_router_from_a_c_array_and_defaults() {
    let script = "var b = 'abc///'; var o = 1; var c = [3250, , 17];";
    let r = HitomiResolver::parse_gg(script).unwrap();
    assert_eq!(
        r.get_image_uri("0a1b2c", "webp", false, false),
        "https://w1.gold-usergeneratedcontent.net/abc/3250/0a1b2c.webp"
    );
    let r = HitomiResolver::parse_gg("case 9:").unwrap();
    assert_eq!(
        r.get_image_uri("xxx009", "webp", false, false),
        "https://w2.gold-usergeneratedcontent.net/1763701202/2304/xxx009.webp"
    );
    match HitomiResolver::parse_gg("nothing to route") {
        Err(SourceError::Parse { message }) => assert_eq!(message, "Failed to parse gg.js routing array"),
        _ => panic!("expected a parse error"),
    }
}

#[test]
fn reads_routes_line_by_line_as_a_last_resort() {
    let r = HitomiResolver::parse_gg("  c = 3250\n").unwrap();
    assert_eq!(
        r.get_image_uri("0a1b2c", "webp", false, false),
        "https://w1.gold-usergeneratedcontent.net/1763701202/3250/0a1b2c.webp"
    );
}

#[test]
fn hashes_that_split_at_character_boundaries() {
    assert!(hash_splits("abc"));
    assert!(hash_splits("ab"));
    assert!(hash_splits("aé1"));
    assert!(!hash_splits("abé"));
    assert!(!hash_splits("a€1"));
}

#[test]
fn nozomi_urls() {
    assert_eq!(get_nozomi_url(None, None, "all", None), "https://ltn.gold-usergeneratedcontent.net/n/index-all.nozomi");
    assert_eq!(
        get_nozomi_url(None, None, "english", Some("day")),
        "https://ltn.gold-usergeneratedcontent.net/popular/today-english.nozomi"
    );
    assert_eq!(
        get_nozomi_url(None, None, "all", Some("week")),
        "https://ltn.gold-usergeneratedcontent.net/popular/week-all.nozomi"
    );
    assert_eq!(
        get_nozomi_url(Some("female"), Some("big%20breasts"), "all", None),
        "https://ltn.gold-usergeneratedcontent.net/n/tag/female:big%20breasts-all.nozomi"
    );
    assert_eq!(
        get_nozomi_url(Some("language"), Some("korean"), "all", None),
        "https://ltn.gold-usergeneratedcontent.net/n/index-korean.nozomi"
    );
    assert_eq!(
        get_nozomi_url(Some("artist"), Some("bob"), "all", None),
        "https://ltn.gold-usergeneratedcontent.net/n/artist/bob-all.nozomi"
    );
    assert_eq!(nozomi_tag_name("  big_breasts "), "big breasts");
    assert_eq!(nozomi_range(0, 20), "bytes=0-79");
    assert_eq!(nozomi_range(20, 40), "bytes=80-159");
}

#[test]
fn nozomi_ids_are_big_endian() {
    assert_eq!(parse_nozomi(&[0, 0, 0, 1, 0, 1, 0, 0, 255, 255, 255, 255, 7]), vec![1, 65536, u32::MAX]);
    assert!(parse_nozomi(&[1, 2, 3]).is_empty());
}

#[test]
fn extracts_the_gallery_json() {
    assert_eq!(extract_gallery_json("var galleryinfo = {\"a\":{\"b\":1}};").unwrap(), "{\"a\":{\"b\":1}}");
    match extract_gallery_json("} nothing {") {
        Err(SourceError::Parse { message }) => assert_eq!(message, "Failed to extract JSON from galleryinfo.js"),
        _ => panic!("expected a parse error"),
    }
    assert!(extract_gallery_json("no braces").is_err());
}

#[test]
fn intersects_id_lists_newest_first() {
    assert_eq!(intersect_ids(vec![vec![5, 3, 9, 1, 3], vec![1, 9, 4, 3], vec![3, 9, 1, 8]]), vec![9, 3, 1]);
    assert_eq!(intersect_ids(vec![vec![2, 1, 2]]), vec![2, 1]);
    assert!(intersect_ids(vec![]).is_empty());
    assert!(intersect_ids(vec![vec![1], vec![]]).is_empty());
    assert_eq!(
        intersect_ids(vec![vec![1, 9, 4, 3], vec![5, 3, 9, 1]]),
        intersect_ids(vec![vec![5, 3, 9, 1], vec![1, 9, 4, 3]])
    );
}

fn tag_page() -> String {
    [
        r#"<a href="/tag/female%3Aelf-all.html">elf </a> (12,345)"#,
        r#"<a href="https://hitomi.la/tag/male%3Aorc-all.html" class="x">orc</a> (2,000)"#,
        r#"<a href="/tag/rare-all.html">rare</a> (99)"#,
        r#"<a href="/tag/full%20color-all.html">full color</a> (500)"#,
    ]
    .join("")
}

#[test]
fn reads_popular_tags_and_orders_them_by_count() {
    let tags = parse_tag_page(&tag_page());
    assert_eq!(tags.len(), 3);
    assert_eq!(tags[0].id, "female:elf");
    assert_eq!(tags[0].display, "elf");
    assert_eq!(tags[0].count, 12345);
    assert_eq!(tags[2].id, "full color");
    let second = r#"<a href="/tag/glasses-all.html">glasses</a> (2,000)"#.to_owned();
    let opts = top_tags(&vec![tag_page(), second]);
    let labels: Vec<&str> = opts.iter().map(|o| o.label.as_str()).collect();
    assert_eq!(labels, vec!["elf \u{2640}", "orc \u{2642}", "glasses", "full color"]);
    assert_eq!(opts[0].id, "female:elf");
    let urls = tag_page_urls();
    assert_eq!(urls.len(), 12);
    assert_eq!(urls[0], "https://hitomi.la/alltags-a.html");
    assert_eq!(urls[11], "https://hitomi.la/alltags-y.html");
}

#[test]
fn sections_and_searches_pick_their_id_lists() {
    assert_eq!(item_range(1), (0, 20));
    assert_eq!(item_range(3), (40, 60));
    assert_eq!(
        section_nozomi_url("popular_week", "all").unwrap(),
        "https://ltn.gold-usergeneratedcontent.net/popular/week-all.nozomi"
    );
    assert!(section_nozomi_url("x", "all").is_err());
    let secs = homepage_sections("english");
    assert_eq!(secs[0].2, SectionLayout::TripleRow);
    assert_eq!(secs[1].3, "https://ltn.gold-usergeneratedcontent.net/popular/today-english.nozomi");
    assert_eq!(user_query("", Some("female:elf")), "female:elf");
    assert_eq!(user_query("a", Some("b")), "a");
    assert_eq!(user_query("", None), "");
    assert_eq!(search_target(""), None);
    assert_eq!(search_target("  female:big_breasts male:orc"), Some(("female".to_owned(), "big_breasts".to_owned())));
    assert_eq!(search_target("glasses"), Some(("tag".to_owned(), "glasses".to_owned())));
    assert_eq!(search_target("   "), Some(("tag".to_owned(), String::new())));
    assert_eq!(
        search_nozomi_url("female:big_breasts", "big%20breasts", "all"),
        "https://ltn.gold-usergeneratedcontent.net/n/tag/female:big%20breasts-all.nozomi"
    );
    assert_eq!(search_nozomi_url("", "x", "all"), "https://ltn.gold-usergeneratedcontent.net/n/index-all.nozomi");
}

fn gallery() -> HitomiGalleryJson {
    HitomiGalleryJson {
        title: None,
        japanese_title: None,
        date: Some("2024-01-01 10:00:00-06".to_owned()),
        artists: Some(vec![HitomiAuthor { artist: Some("bob".to_owned()), group: None }]),
        groups: Some(vec![
            HitomiAuthor { artist: None, group: Some("circle".to_owned()) },
            HitomiAuthor { artist: None, group: None },
        ]),
        tags: Some(vec![
            HitomiTagJson { tag: Some("elf".to_owned()), male: None, female: Some(serde_json::Value::from(1)) },
            HitomiTagJson { tag: Some("orc".to_owned()), male: Some(serde_json::Value::from("1")), female: None },
            HitomiTagJson { tag: Some("full color".to_owned()), male: None, female: None },
            HitomiTagJson { tag: None, male: None, female: None },
        ]),
        files: Some(vec![
            HitomiFileJson { hash: Some("0a1b2c".to_owned()), hasavif: Some(1), haswebp: Some(1) },
            HitomiFileJson { hash: None, hasavif: None, haswebp: None },
            HitomiFileJson { hash: Some("ffff00".to_owned()), hasavif: Some(1), haswebp: Some(0) },
        ]),
    }
}

#[test]
fn gallery_scripts_become_a_manga_and_pages() {
    let r = HitomiResolver::parse_gg(GG).unwrap();
    let m = gallery_manga("2000001", &gallery(), Some(&r));
    assert_eq!(m.title, "Gallery 2000001");
    assert_eq!(m.author, vec!["bob", "circle"]);
    assert_eq!(m.artist, vec!["bob", "circle"]);
    let ids: Vec<&str> = m.tags.iter().map(|t| t.id.as_str()).collect();
    assert_eq!(ids, vec!["female:elf", "male:orc", "full color"]);
    assert_eq!(m.tags[0].label, "elf");
    assert_eq!(m.cover_url, "https://btn.gold-usergeneratedcontent.net/webpbigtn/c/b2/0a1b2c.webp");
    assert_eq!(m.status, Status::Completed);
    assert_eq!(m.last_updated, "2024-01-01 10:00:00-06");
    let plain = gallery_manga("2000001", &gallery(), None);
    assert_eq!(plain.cover_url, "https://hitomi.la/favicon.ico");
    let card = manga_card(plain);
    assert_eq!(card.id, "2000001");
    assert!(card.description.is_none());
    let pages = gallery_pages(&gallery(), &r);
    assert_eq!(pages.len(), 2);
    assert_eq!(pages[0].number, 0);
    assert_eq!(pages[0].image_url, "https://w2.gold-usergeneratedcontent.net/1763701202/3250/0a1b2c.webp");
    assert_eq!(pages[1].number, 2);
    assert_eq!(pages[1].image_url, "https://a1.gold-usergeneratedcontent.net/1763701202/240/ffff00.avif");
    let c = oneshot_chapter("2000001");
    assert_eq!(c.url, "https://hitomi.la/galleries/2000001.html");
    let page = listing_page(20, vec![]);
    assert!(page.has_next);
    assert!(!listing_page(19, vec![]).has_next);
}

#[test]
fn hitomi_declares_its_id_and_hosts() {
    let i = info();
    assert_eq!((i.id.as_str(), i.name.as_str(), i.version.as_str()), ("la.hitomi", "Hitomi.la", "1.0"));
    assert_eq!((i.language.as_str(), i.base_url.as_str()), ("multi", "https://hitomi.la"));
    assert_eq!(i.hosts, vec!["hitomi.la", "ltn.gold-usergeneratedcontent.net", "*.hitomi.la"]);
    assert!(i.nsfw);
}

#[test]
fn hitomi_settings_offer_a_preferred_language() {
    let all = settings();
    assert_eq!(all.len(), 1);
    assert_eq!((all[0].key.as_str(), all[0].label.as_str(), all[0].kind), ("language", "Preferred Language", SettingKind::Select));
    let ids: Vec<&str> = all[0].options.iter().map(|o| o.id.as_str()).collect();
    assert_eq!(ids, vec!["all", "english", "japanese", "chinese", "korean", "spanish"]);
    assert_eq!(all[0].description, "Filter the homepage and search results by language.");
}

#[test]
fn hitomi_filters_add_popular_tags_when_there_are_some() {
    let bare = filters(Vec::new());
    assert_eq!(bare.len(), 1);
    assert_eq!((bare[0].id.as_str(), bare[0].kind), ("query", FilterKind::Text));
    assert_eq!(bare[0].label, "Search (e.g. female:elf male:orc)");
    let with = filters(vec![SelectOption { id: "female:elf".to_owned(), label: "elf".to_owned() }]);
    assert_eq!(with.len(), 2);
    assert_eq!((with[1].id.as_str(), with[1].label.as_str(), with[1].kind), ("tags", "Popular Tags", FilterKind::MultiSelect));
}

#[test]
fn hitomi_homepage_skips_galleries_that_were_not_found() {
    let found = gallery_manga("2000001", &gallery(), None);
    let rows = vec![vec![None, Some(found)], Vec::new(), vec![None]];
    let home = homepage(rows);
    let ids: Vec<&str> = home.iter().map(|s| s.id.as_str()).collect();
    assert_eq!(ids, vec!["latest", "popular_today", "popular_week"]);
    assert!(home.iter().all(|s| s.paginable));
    assert_eq!(home[0].items.len(), 1);
    assert_eq!(home[0].items[0].id, "2000001");
    assert!(home[0].items[0].description.is_none());
    assert!(home[1].items.is_empty() && home[2].items.is_empty());
    assert!(row_cards(vec![None, None]).is_empty());
}

#[test]
fn router_parts_pick_the_first_route_list_that_names_any() {
    assert_eq!(routes_from_list(" 3250, x ,17,, 9 "), vec![3250, 17, 9]);
    assert!(routes_from_list("").is_empty());
    let cases = vec![
        vec![Some("case 12:".to_owned()), Some("12".to_owned())],
        vec![Some("case x:".to_owned()), Some("x".to_owned())],
        vec![Some("case 7:".to_owned()), None],
        vec![Some("case 40:".to_owned()), Some("40".to_owned())],
    ];
    assert_eq!(routes_from_cases(&cases), vec![12, 40]);
    let r = HitomiResolver::from_parts(Some("p//".to_owned()), Some("0".to_owned()), Vec::new(), vec![3250], vec![1]).unwrap();
    assert_eq!(
        r.get_image_uri("0a1b2c", "webp", false, false),
        "https://w2.gold-usergeneratedcontent.net/p/3250/0a1b2c.webp"
    );
    let r = HitomiResolver::from_parts(None, Some("1".to_owned()), vec![3250], Vec::new(), Vec::new()).unwrap();
    assert_eq!(
        r.get_image_uri("0a1b2c", "webp", false, false),
        "https://w1.gold-usergeneratedcontent.net/1763701202/3250/0a1b2c.webp"
    );
    match HitomiResolver::from_parts(None, None, Vec::new(), Vec::new(), Vec::new()) {
        Err(SourceError::Parse { message }) => assert_eq!(message, "Failed to parse gg.js routing array"),
        _ => panic!("expected a parse error"),
    }
}

#[test]
fn tag_matches_become_ranked_options() {
    let m = |id: &str, name: &str, count: &str| {
        vec![Some(String::new()), Some(id.to_owned()), Some(name.to_owned()), Some(count.to_owned())]
    };
    let tags = tags_from_matches(&vec![m("male%3Aorc", " orc ", "2,000"), m("rare", "rare", "100"), m("x%20y", "x y", "101")]);
    assert_eq!(tags.len(), 2);
    assert_eq!((tags[0].id.as_str(), tags[0].display.as_str(), tags[0].count), ("male:orc", "orc", 2000));
    assert_eq!(tags[1].id, "x y");
    let ranked = rank_tags(&vec![
        ParsedTag { id: "a".to_owned(), display: "a".to_owned(), count: 150 },
        ParsedTag { id: "female:b".to_owned(), display: "b".to_owned(), count: 900 },
        ParsedTag { id: "c".to_owned(), display: "c".to_owned(), count: 150 },
    ]);
    let ids: Vec<&str> = ranked.iter().map(|o| o.id.as_str()).collect();
    assert_eq!(ids, vec!["female:b", "a", "c"]);
    assert_eq!(ranked[0].label, "b \u{2640}");
}
