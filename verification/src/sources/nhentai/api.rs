//! Records of nhentai's v2 JSON API.
use vstd::prelude::*;
use crate::text::{opt_string, owned};

verus! {

/// Sort orders the search endpoint accepts.
pub enum NHentaiSearchSortId {
    Date,
    PopularToday,
    PopularWeek,
    PopularMonth,
    Popular,
    Related,
    LastRead,
    TopReread,
}

/// The endpoint families nhentai meters separately.
#[derive(PartialEq, Eq, Structural, Clone, Copy, Debug)]
pub enum EndpointClass {
    Search,
    GalleryDetail,
    Media,
    Galleries,
    Random,
    Related,
    Tagged,
    Popular,
    Config,
    Captcha,
    Default,
}

/// A gallery as the list and search endpoints return it.
pub struct V2GalleryListItem {
    pub id: u32,
    pub media_id: String,
    pub thumbnail: String,
    pub thumbnail_width: u32,
    pub thumbnail_height: u32,
    pub english_title: Option<String>,
    pub japanese_title: Option<String>,
    pub tag_ids: Vec<u32>,
    pub num_pages: Option<u32>,
    pub num_favorites: Option<u32>,
    pub blacklisted: Option<bool>,
}

/// The title shown when a gallery has none.
pub open spec fn untitled() -> Seq<char> {
    seq!['U', 'n', 't', 'i', 't', 'l', 'e', 'd']
}

/// The first title that is present, else `Untitled`.
pub open spec fn first_title(titles: Seq<Option<Seq<char>>>) -> Seq<char>
    decreases titles.len(),
{
    if titles.len() == 0 {
        untitled()
    } else {
        match titles[0] {
            Some(t) => t,
            None => first_title(titles.drop_first()),
        }
    }
}

fn clone_title(t: &Option<String>) -> (r: Option<String>)
    ensures
        opt_string(r) == opt_string(*t),
{
    match t {
        Some(s) => Some(s.clone()),
        None => None,
    }
}

fn untitled_string() -> (r: String)
    ensures
        r@ == untitled(),
{
    let r = owned("Untitled");
    proof {
        reveal_strlit("Untitled");
    }
    assert(r@ =~= untitled());
    r
}

impl V2GalleryListItem {
    /// The english title, else the japanese one, else `Untitled`.
    pub fn best_title(&self) -> (r: String)
        ensures
            r@ == first_title(seq![opt_string(self.english_title), opt_string(self.japanese_title)]),
    {
        let ghost titles = seq![opt_string(self.english_title), opt_string(self.japanese_title)];
        assert(titles.drop_first() =~= seq![opt_string(self.japanese_title)]);
        assert(titles.drop_first().drop_first() =~= Seq::<Option<Seq<char>>>::empty());
        proof {
            reveal_with_fuel(first_title, 3);
        }
        match clone_title(&self.english_title) {
            Some(t) => t,
            None => match clone_title(&self.japanese_title) {
                Some(t) => t,
                None => untitled_string(),
            },
        }
    }
}

/// A page of search results.
pub struct V2SearchResponse {
    pub result: Option<Vec<V2GalleryListItem>>,
    pub num_pages: u32,
    pub per_page: u32,
    pub total: Option<u32>,
    pub error: Option<String>,
}

/// An image of a gallery.
pub struct V2GalleryAsset {
    pub path: String,
    pub width: u32,
    pub height: u32,
}

/// A page image of a gallery, with its thumbnail.
pub struct V2GalleryPageAsset {
    pub path: String,
    pub width: u32,
    pub height: u32,
    pub number: u32,
    pub thumbnail: String,
    pub thumbnail_width: u32,
    pub thumbnail_height: u32,
}

/// A gallery as the detail endpoint returns it.
pub struct V2GalleryDetailResponse {
    pub id: u32,
    pub media_id: String,
    pub title: GalleryTitle,
    pub cover: V2GalleryAsset,
    pub thumbnail: V2GalleryAsset,
    pub tags: Vec<GalleryTag>,
    pub num_pages: u32,
    pub num_favorites: u32,
    pub upload_date: u64,
    pub pages: Vec<V2GalleryPageAsset>,
}

/// The titles of a gallery.
pub struct GalleryTitle {
    pub english: Option<String>,
    pub japanese: Option<String>,
    pub pretty: Option<String>,
}

impl GalleryTitle {
    /// The pretty title, else the english one, else the japanese one, else
    /// `Untitled`.
    pub fn best_title(&self) -> (r: String)
        ensures
            r@ == first_title(
                seq![opt_string(self.pretty), opt_string(self.english), opt_string(self.japanese)],
            ),
    {
        let ghost titles = seq![
            opt_string(self.pretty),
            opt_string(self.english),
            opt_string(self.japanese),
        ];
        assert(titles.drop_first() =~= seq![opt_string(self.english), opt_string(self.japanese)]);
        assert(titles.drop_first().drop_first() =~= seq![opt_string(self.japanese)]);
        assert(titles.drop_first().drop_first().drop_first() =~= Seq::<Option<Seq<char>>>::empty());
        proof {
            reveal_with_fuel(first_title, 4);
        }
        match clone_title(&self.pretty) {
            Some(t) => t,
            None => match clone_title(&self.english) {
                Some(t) => t,
                None => match clone_title(&self.japanese) {
                    Some(t) => t,
                    None => untitled_string(),
                },
            },
        }
    }
}

/// A tag as the tag list endpoint returns it.
pub struct V2TagEntry {
    pub id: u32,
    pub tag_type: String,
    pub name: String,
    pub slug: String,
    pub url: String,
    pub count: u32,
}

/// A page of the tag list.
pub struct V2TagListResponse {
    pub result: Option<Vec<V2TagEntry>>,
    pub num_pages: u32,
    pub per_page: u32,
    pub total: Option<u32>,
    pub error: Option<String>,
}

/// A tag of a gallery.
pub struct GalleryTag {
    pub id: u32,
    pub tag_type: String,
    pub name: String,
    pub url: String,
    pub count: u32,
}

} // verus!
