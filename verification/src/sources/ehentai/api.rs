//! Records of E-Hentai's JSON API.
use vstd::prelude::*;

verus! {

/// A `gdata` request for the metadata of some galleries.
pub struct GDataRequest<'a> {
    pub method: &'a str,
    pub gidlist: Vec<(u64, String)>,
    pub namespace: u8,
}

/// The answer to a `gdata` request.
pub struct GDataResponse {
    pub gmetadata: Vec<GMetadata>,
}

/// The metadata of one gallery. Numeric fields arrive as strings, except
/// `gid` and `filesize`.
pub struct GMetadata {
    pub gid: u64,
    pub token: String,
    pub title: String,
    pub title_jpn: String,
    pub category: String,
    pub thumb: String,
    pub uploader: String,
    pub posted: String,
    pub filecount: String,
    pub rating: String,
    pub tags: Vec<String>,
    pub error: Option<String>,
}

/// A `showpage` request for the image of one gallery page.
pub struct ShowPageRequest<'a> {
    pub method: &'a str,
    pub gid: u64,
    pub page: u32,
    pub imgkey: &'a str,
    pub showkey: &'a str,
}

/// The answer to a `showpage` request.
pub struct ShowPageResponse {
    /// The `<img id="img">` element; the image URL has to be read back out of it.
    pub i3: String,
    pub error: Option<String>,
}

} // verus!
