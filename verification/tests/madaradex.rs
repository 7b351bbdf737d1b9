use extension_nsfw::model::{FilterKind, SectionLayout, SourceError, Status};
use extension_nsfw::sources::madaradex::parse::{
    card_from_parts, chapter_from_parts, page_from_parts, chapter_number_of, parse_chapter_list, pick_source, tag_from_parts, parse_chapter_pages, parse_latest_updates,
    parse_manga_details, parse_new_manga, parse_search, parse_status, parse_tags, slug_of,
};
use extension_nsfw::sources::madaradex::source::{
    SearchInput, adult_options, chapter_url, condition_options, fingerprint_cookie, genre_options,
    filters, homepage, homepage_items, homepage_sections, homepage_url, info, settings, order_options, search_parts, section_order,
    section_url, status_options, title_url,
};

const SEARCH: &str = r#"<html><body>
<div class="c-tabs-item__content">
  <div class="tab-thumb"><a href="https://madaradex.org/title/foo-bar/"><img data-src="https://cdn/foo.jpg" src="data:x"></a></div>
  <div class="post-title"><h3><a href="https://madaradex.org/title/foo-bar/"> Foo Bar </a></h3></div>
</div>
<div class="c-tabs-item__content">
  <div class="tab-thumb"><img src="https://cdn/baz.jpg"></div>
  <div class="post-title"><h4><a href="https://madaradex.org/title/baz">Baz</a></h4></div>
</div>
<div class="c-tabs-item__content"><div class="post-title"><h3><a href="/">  </a></h3></div></div>
<div class="c-tabs-item__content"><p>no title</p></div>
<div class="wp-pagenavi"><a class="nextpostslink" href="x">next</a></div>
</body></html>"#;

#[test]
fn reads_search_cards_and_the_pager() {
    let page = parse_search(SEARCH).unwrap();
    assert!(page.has_next);
    assert_eq!(page.items.len(), 2);
    assert_eq!(page.items[0].id, "foo-bar");
    assert_eq!(page.items[0].title, "Foo Bar");
    assert_eq!(page.items[0].cover_url, "https://cdn/foo.jpg");
    assert_eq!(page.items[1].id, "baz");
    assert_eq!(page.items[1].cover_url, "https://cdn/baz.jpg");
    assert!(page.items[1].description.is_none());
    let last = parse_search("<div class=\"c-tabs-item__content\"></div>").unwrap();
    assert!(!last.has_next);
    assert!(last.items.is_empty());
    assert!(homepage_items("<p>empty</p>").is_none());
    assert_eq!(homepage_items(SEARCH).unwrap().len(), 2);
}

#[test]
fn reads_the_front_page_rows() {
    let html = r#"<div class="popular-slider">
      <div class="slick-slide"><div class="slider__item"><div class="post-title"><a href="/title/a/">A</a></div><img data-lazy-src="https://cdn/a.jpg"></div></div>
      <div class="slick-slide slick-cloned"><div class="slider__item"><div class="post-title"><a href="/title/a/">A</a></div></div></div>
    </div>
    <div class="page-content-listing"><div class="page-item-detail"><img src="https://cdn/b.jpg"><div class="post-title"><a href="/title/b">B</a></div></div></div>"#;
    let new = parse_new_manga(html).unwrap();
    assert_eq!(new.len(), 1);
    assert_eq!(new[0].id, "a");
    assert_eq!(new[0].cover_url, "https://cdn/a.jpg");
    let latest = parse_latest_updates(html).unwrap();
    assert_eq!(latest.len(), 1);
    assert_eq!(latest[0].id, "b");
    assert_eq!(latest[0].cover_url, "https://cdn/b.jpg");
}

#[test]
fn reads_the_genre_list() {
    let html = r#"<div class="row genres"><ul>
      <li><a href="https://madaradex.org/genre/action/">Action</a></li>
      <li><a href="https://madaradex.org/genre/comedy">  Comedy </a></li>
      <li>none</li>
      <li><a>No href</a></li>
    </ul></div>"#;
    let tags = parse_tags(html).unwrap();
    assert_eq!(tags.len(), 2);
    assert_eq!(tags[0].id, "action");
    assert_eq!(tags[1].id, "comedy");
    assert_eq!(tags[1].label, "Comedy");
}

#[test]
fn reads_title_details() {
    let html = r#"<div class="summary_image"><img data-lazy-src="https://cdn/cover.jpg" src="x"></div>
      <div class="author-content"><a href="/a/1"> Alice </a><a>Bob</a></div>
      <div class="artist-content"><a>Carol</a></div>
      <div class="genres-content"><a href="https://madaradex.org/genre/action/">Action</a></div>
      <div class="tags-content"><a href="https://madaradex.org/tag/elf/"> Elf </a><a href="">Empty</a></div>"#;
    let m = parse_manga_details(html, "foo", Some("Foo".to_owned()), None, Some("OnGoing".to_owned())).unwrap();
    assert_eq!(m.id, "foo");
    assert_eq!(m.title, "Foo");
    assert_eq!(m.description, "");
    assert_eq!(m.cover_url, "https://cdn/cover.jpg");
    assert_eq!(m.author, vec!["Alice", "Bob"]);
    assert_eq!(m.artist, vec!["Carol"]);
    let ids: Vec<&str> = m.tags.iter().map(|t| t.id.as_str()).collect();
    assert_eq!(ids, vec!["action", "elf"]);
    assert_eq!(m.tags[1].label, "Elf");
    assert_eq!(m.status, Status::Ongoing);
    assert!(m.rating.is_none());
}

#[test]
fn reads_status_lines() {
    assert_eq!(parse_status("Completed"), Status::Completed);
    assert_eq!(parse_status("END"), Status::Completed);
    assert_eq!(parse_status("Canceled"), Status::Cancelled);
    assert_eq!(parse_status("On-Hold"), Status::Hiatus);
    assert_eq!(parse_status("Upcoming"), Status::Unknown);
    assert_eq!(parse_status(""), Status::Unknown);
}

#[test]
fn reads_the_chapter_list() {
    let html = r##"<ul>
      <li class="wp-manga-chapter"><a href="https://madaradex.org/title/foo/chapter-12-5/"> Chapter 12.5 - The End </a><span class="chapter-release-date"><i> May 1, 2024 </i></span></li>
      <li class="wp-manga-chapter"><a href="https://madaradex.org/title/foo/chapter-1/">Chapter 1</a><span class="chapter-release-date"><a title="2 days ago" href="#">x</a></span></li>
      <li class="wp-manga-chapter"><span>no link</span></li>
      <li class="wp-manga-chapter"><a href="https://madaradex.org/title/foo/extra/">Extra</a></li>
    </ul>"##;
    let cs = parse_chapter_list(html, "foo").unwrap();
    assert_eq!(cs.len(), 3);
    assert_eq!(cs[0].id, "chapter-12-5");
    assert_eq!(cs[0].title, "Chapter 12.5 - The End");
    assert_eq!(cs[0].number, "12.5");
    assert_eq!(cs[0].upload_date, "May 1, 2024");
    assert_eq!(cs[0].language, "en");
    assert_eq!(cs[0].manga_id, "foo");
    assert_eq!(cs[1].upload_date, "2 days ago");
    assert_eq!(cs[1].number, "1");
    assert_eq!(cs[2].upload_date, "");
    assert_eq!(cs[2].number, "extra");
    assert_eq!(cs[2].url, "https://madaradex.org/title/foo/extra/");
    assert_eq!(chapter_number_of("Chapter"), "0");
}

#[test]
fn reads_chapter_images_in_order() {
    let html = r#"<div class="reading-content"><img class="wp-manga-chapter-img" data-src=" https://cdn/1.jpg "><img class="wp-manga-chapter-img" src=""><img src="https://cdn/3.jpg"></div>"#;
    let pages = parse_chapter_pages(html).unwrap();
    assert_eq!(pages.len(), 2);
    assert_eq!(pages[0].number, 0);
    assert_eq!(pages[0].image_url, "https://cdn/1.jpg");
    assert_eq!(pages[1].number, 2);
    assert_eq!(pages[1].image_url, "https://cdn/3.jpg");
}

#[test]
fn slugs_are_the_last_path_segment() {
    assert_eq!(slug_of("https://madaradex.org/title/foo///"), "foo");
    assert_eq!(slug_of("foo"), "foo");
    assert_eq!(slug_of(""), "");
}

#[test]
fn sections_urls_and_session() {
    assert_eq!(section_order("views").unwrap(), "views");
    match section_order("x") {
        Err(SourceError::Parse { message }) => assert_eq!(message, "Unknown section ID"),
        _ => panic!("expected a parse error"),
    }
    assert_eq!(section_url(2, "latest"), "https://madaradex.org/page/2/?s=&post_type=wp-manga&m_orderby=latest");
    assert_eq!(homepage_url("rating"), "https://madaradex.org/?s=&post_type=wp-manga&m_orderby=rating");
    let secs = homepage_sections();
    assert_eq!(secs.len(), 5);
    assert_eq!(secs[1].3, SectionLayout::TripleRow);
    assert_eq!(title_url("foo"), "https://madaradex.org/title/foo/");
    assert_eq!(chapter_url("foo", "ch-1", true), "https://madaradex.org/title/foo/ch-1/?style=list");
    assert_eq!(chapter_url("foo", "ch-1", false), "https://madaradex.org/title/foo/ch-1/");
    assert_eq!(fingerprint_cookie("ab12"), "mdx_fp=ab12; Domain=.madaradex.org; Path=/");
}

#[test]
fn search_urls_are_built_in_pieces() {
    let input = SearchInput {
        page: 2,
        term: String::new(),
        query: None,
        author: Some("x y".to_owned()),
        artist: Some(String::new()),
        release: None,
        op: Some("1".to_owned()),
        adult: Some(String::new()),
        order: Some("latest".to_owned()),
        statuses: vec!["end".to_owned()],
        genres: vec!["action".to_owned(), "yuri".to_owned()],
    };
    let parts: Vec<(bool, String)> = search_parts(&input).into_iter().map(|p| (p.encode, p.text)).collect();
    let expected: Vec<(bool, String)> = vec![
        (false, "https://madaradex.org/page/2/?s="),
        (true, "*"),
        (false, "&post_type=wp-manga"),
        (false, "&author="),
        (true, "x y"),
        (false, "&op=1"),
        (false, "&m_orderby=latest"),
        (false, "&status[]=end"),
        (false, "&genre[]=action"),
        (false, "&genre[]=yuri"),
    ]
    .into_iter()
    .map(|(e, t)| (e, t.to_owned()))
    .collect();
    assert_eq!(parts, expected);
}

#[test]
fn filter_options() {
    let g = genre_options();
    assert_eq!(g.len(), 25);
    assert_eq!(g[10].id, "martial-arts");
    assert_eq!(g[10].label, "Martial Arts");
    assert_eq!(status_options()[1].label, "Completed");
    assert_eq!(order_options()[0].id, "");
    assert_eq!(condition_options()[1].id, "1");
    assert_eq!(adult_options()[2].label, "Only adult content");
}

#[test]
fn madaradex_declares_its_id_and_hosts() {
    let i = info();
    assert_eq!((i.id.as_str(), i.name.as_str(), i.version.as_str()), ("org.madaradex", "MadaraDex", "1.0"));
    assert_eq!((i.language.as_str(), i.base_url.as_str()), ("en", "https://madaradex.org"));
    assert_eq!(i.hosts, vec!["madaradex.org", "cdn.madaradex.org"]);
    assert!(i.nsfw);
}

#[test]
fn madaradex_takes_no_settings() {
    assert!(settings().is_empty());
}

#[test]
fn madaradex_offers_nine_filters() {
    let all = filters();
    let heads: Vec<(&str, FilterKind)> = all.iter().map(|f| (f.id.as_str(), f.kind)).collect();
    assert_eq!(
        heads,
        vec![
            ("query", FilterKind::Text),
            ("author", FilterKind::Text),
            ("artist", FilterKind::Text),
            ("release", FilterKind::Text),
            ("op", FilterKind::Select),
            ("adult", FilterKind::Select),
            ("status", FilterKind::MultiSelect),
            ("genres", FilterKind::MultiSelect),
            ("m_orderby", FilterKind::Sort),
        ]
    );
    assert_eq!(all[0].placeholder.as_deref(), Some("Search..."));
    assert_eq!(all[3].label, "Year of Release");
    assert_eq!(all[4].default.as_deref(), Some(""));
    assert_eq!(all[4].options.len(), 2);
    assert_eq!(all[6].default, None);
    assert_eq!(all[8].options[0].label, "Relevance");
    assert!(all.iter().all(|f| !f.exclusion));
}

#[test]
fn madaradex_homepage_keeps_rows_that_list_cards() {
    let pages = vec![Some(SEARCH.to_owned()), None, Some("<p>empty</p>".to_owned()), Some(SEARCH.to_owned()), None];
    let home = homepage(pages);
    assert_eq!(home.len(), 2);
    assert_eq!((home[0].id.as_str(), home[0].title.as_str(), home[0].layout), ("trending", "Trending", SectionLayout::SingleRow));
    assert_eq!((home[1].id.as_str(), home[1].title.as_str()), ("rating", "Top Rated"));
    assert!(home.iter().all(|s| s.paginable));
    assert_eq!(home[0].items.len(), 2);
    assert_eq!(home[0].items[0].id, "foo-bar");
}

#[test]
fn parts_become_cards_tags_and_chapters() {
    let card = card_from_parts(Some("https://madaradex.org/title/foo/".to_owned()), "  Foo ", "https://cdn/f.jpg".to_owned()).unwrap();
    assert_eq!((card.id.as_str(), card.title.as_str(), card.cover_url.as_str()), ("foo", "Foo", "https://cdn/f.jpg"));
    assert!(card.description.is_none());
    assert!(card_from_parts(None, "Foo", String::new()).is_none());
    assert!(card_from_parts(Some("/title/foo".to_owned()), "   ", String::new()).is_none());
    let tag = tag_from_parts(Some("https://madaradex.org/genre/yuri/".to_owned()), " Yuri ").unwrap();
    assert_eq!((tag.id.as_str(), tag.label.as_str()), ("yuri", "Yuri"));
    assert!(tag_from_parts(Some("/genre/x".to_owned()), "").is_none());
    let ch = chapter_from_parts("foo", Some("https://madaradex.org/title/foo/chapter-12-5/".to_owned()), " Chapter 12.5 ", "May 1".to_owned()).unwrap();
    assert_eq!((ch.id.as_str(), ch.title.as_str(), ch.number.as_str()), ("chapter-12-5", "Chapter 12.5", "12.5"));
    assert_eq!((ch.manga_id.as_str(), ch.language.as_str(), ch.upload_date.as_str()), ("foo", "en", "May 1"));
    assert_eq!(ch.url, "https://madaradex.org/title/foo/chapter-12-5/");
    assert!(chapter_from_parts("foo", None, "Chapter 1", String::new()).is_none());
    assert_eq!(pick_source(None, Some("b".to_owned()), Some("c".to_owned())), "b");
    assert_eq!(pick_source(None, None, None), "");
}

#[test]
fn image_attributes_become_pages() {
    let p = page_from_parts(3, None, Some("  https://cdn/3.jpg\n".to_owned()), Some("x".to_owned())).unwrap();
    assert_eq!((p.number, p.image_url.as_str()), (3, "https://cdn/3.jpg"));
    assert!(page_from_parts(0, Some("   ".to_owned()), None, None).is_none());
}
