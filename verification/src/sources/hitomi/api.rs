//! Records of Hitomi's gallery scripts.
use vstd::prelude::*;

verus! {

/// A JSON value of any shape, carried through unread.
#[verifier::external_type_specification]
#[verifier::external_body]
pub struct ExJsonValue(serde_json::Value);

/// A gallery as its `galleries/<id>.js` script describes it.
pub struct HitomiGalleryJson {
    pub title: Option<String>,
    pub japanese_title: Option<String>,
    pub date: Option<String>,
    pub artists: Option<Vec<HitomiAuthor>>,
    pub groups: Option<Vec<HitomiAuthor>>,
    pub tags: Option<Vec<HitomiTagJson>>,
    pub files: Option<Vec<HitomiFileJson>>,
}

/// An artist or group credit.
pub struct HitomiAuthor {
    pub artist: Option<String>,
    pub group: Option<String>,
}

/// A tag; `male` or `female` is set on gendered tags.
pub struct HitomiTagJson {
    pub tag: Option<String>,
    pub male: Option<serde_json::Value>,
    pub female: Option<serde_json::Value>,
}

/// An image file of a gallery.
pub struct HitomiFileJson {
    pub hash: Option<String>,
    pub hasavif: Option<u8>,
    pub haswebp: Option<u8>,
}

} // verus!
