//! An adult source pack for a manga reader: nHentai, Hitomi.la, MadaraDex and
//! E-Hentai. Each source turns site responses (HTML, JSON, binary id lists,
//! scripts) into listing cards, manga details, chapters and page images, and
//! decides which URLs to request next.
use vstd::prelude::*;

pub mod html;
pub mod model;
pub mod pattern;
pub mod sources;
pub mod text;

verus! {
} // verus!
