//! The records a source hands the host: listing cards, manga details,
//! chapters, pages, tags, select options, rate limits and errors.
use vstd::prelude::*;

verus! {

/// A card in a listing or search result.
#[derive(Debug)]
pub struct MangaSimple {
    pub id: String,
    pub title: String,
    pub cover_url: String,
    pub description: Option<String>,
}

/// One page of listing results.
#[derive(Debug)]
pub struct MangaPage {
    pub has_next: bool,
    pub items: Vec<MangaSimple>,
}

/// A tag attached to a manga.
#[derive(Debug)]
pub struct Tag {
    pub id: String,
    pub label: String,
}

/// The views of a tag list as `(id, label)` pairs.
pub open spec fn tag_pairs(v: Seq<Tag>) -> Seq<(Seq<char>, Seq<char>)> {
    v.map_values(|t: Tag| (t.id@, t.label@))
}

/// An option of a select or multi-select filter or setting.
#[derive(Debug)]
pub struct SelectOption {
    pub id: String,
    pub label: String,
}

impl View for SelectOption {
    type V = (Seq<char>, Seq<char>);

    open spec fn view(&self) -> (Seq<char>, Seq<char>) {
        (self.id@, self.label@)
    }
}

/// Select options from `(id, label)` pairs, in order.
pub fn option_list(pairs: &[(&str, &str)]) -> (r: Vec<SelectOption>)
    ensures
        r@.map_values(|o: SelectOption| o@) == pairs@.map_values(|p: (&str, &str)| (p.0@, p.1@)),
{
    let mut out: Vec<SelectOption> = Vec::new();
    let mut i: usize = 0;
    while i < pairs.len()
        invariant
            i <= pairs@.len(),
            out@.map_values(|o: SelectOption| o@) == pairs@.take(i as int).map_values(
                |p: (&str, &str)| (p.0@, p.1@),
            ),
        decreases pairs@.len() - i,
    {
        let (id, label) = pairs[i];
        let ghost before = out@;
        out.push(SelectOption { id: id.to_owned(), label: label.to_owned() });
        assert(out@.map_values(|o: SelectOption| o@) =~= before.map_values(|o: SelectOption| o@).push(
            (id@, label@),
        ));
        assert(pairs@.take(i + 1).map_values(|p: (&str, &str)| (p.0@, p.1@)) =~= pairs@.take(
            i as int,
        ).map_values(|p: (&str, &str)| (p.0@, p.1@)).push((id@, label@)));
        i += 1;
    }
    assert(pairs@.take(pairs@.len() as int) =~= pairs@);
    out
}

/// How a setting is entered.
#[derive(PartialEq, Eq, Structural, Clone, Copy, Debug)]
pub enum SettingKind {
    Select,
    Secret,
    Text,
}

/// A user setting a source declares: the key it is stored under, its label,
/// how it is entered, its help text and, for a select, its options.
#[derive(Debug)]
pub struct Setting {
    pub key: String,
    pub label: String,
    pub kind: SettingKind,
    pub description: String,
    pub options: Vec<SelectOption>,
}

/// The views of a setting: key, label, kind, help text and options.
pub open spec fn setting_view(s: Setting) -> (
    Seq<char>,
    Seq<char>,
    SettingKind,
    Seq<char>,
    Seq<(Seq<char>, Seq<char>)>,
) {
    (s.key@, s.label@, s.kind, s.description@, s.options@.map_values(|o: SelectOption| o@))
}

/// A setting with the given key, label, kind, help text and options.
pub fn setting(
    key: &str,
    label: &str,
    kind: SettingKind,
    description: &str,
    options: Vec<SelectOption>,
) -> (r: Setting)
    ensures
        setting_view(r) == (key@, label@, kind, description@, options@.map_values(|o: SelectOption| o@)),
{
    Setting {
        key: key.to_owned(),
        label: label.to_owned(),
        kind,
        description: description.to_owned(),
        options,
    }
}

/// How a filter is entered.
#[derive(PartialEq, Eq, Structural, Clone, Copy, Debug)]
pub enum FilterKind {
    Text,
    Select,
    MultiSelect,
    Sort,
}

/// A search filter a source offers: its id, label, kind, options, the
/// placeholder of a text filter, the preselected option, and whether its
/// options can also be excluded.
#[derive(Debug)]
pub struct Filter {
    pub id: String,
    pub label: String,
    pub kind: FilterKind,
    pub options: Vec<SelectOption>,
    pub placeholder: Option<String>,
    pub default: Option<String>,
    pub exclusion: bool,
}

/// The views of a filter: id, label, kind, options, placeholder, default
/// and whether it allows exclusion.
pub open spec fn filter_view(f: Filter) -> (
    Seq<char>,
    Seq<char>,
    FilterKind,
    Seq<(Seq<char>, Seq<char>)>,
    Option<Seq<char>>,
    Option<Seq<char>>,
    bool,
) {
    (
        f.id@,
        f.label@,
        f.kind,
        f.options@.map_values(|o: SelectOption| o@),
        match f.placeholder {
            Some(p) => Some(p@),
            None => None,
        },
        match f.default {
            Some(d) => Some(d@),
            None => None,
        },
        f.exclusion,
    )
}

/// The views of a list of filters.
pub open spec fn filters_view(v: Seq<Filter>) -> Seq<
    (Seq<char>, Seq<char>, FilterKind, Seq<(Seq<char>, Seq<char>)>, Option<Seq<char>>, Option<Seq<char>>, bool),
> {
    v.map_values(|f: Filter| filter_view(f))
}

/// A text filter with a placeholder.
pub fn text_filter(id: &str, label: &str, placeholder: Option<&str>) -> (r: Filter)
    ensures
        filter_view(r) == (
            id@,
            label@,
            FilterKind::Text,
            Seq::<(Seq<char>, Seq<char>)>::empty(),
            match placeholder {
                Some(p) => Some(p@),
                None => None,
            },
            None::<Seq<char>>,
            false,
        ),
{
    let r = Filter {
        id: id.to_owned(),
        label: label.to_owned(),
        kind: FilterKind::Text,
        options: Vec::new(),
        placeholder: match placeholder {
            Some(p) => Some(p.to_owned()),
            None => None,
        },
        default: None,
        exclusion: false,
    };
    assert(r.options@.map_values(|o: SelectOption| o@) =~= Seq::<(Seq<char>, Seq<char>)>::empty());
    r
}

/// A select, multi-select or sort filter over `options`.
pub fn choice_filter(
    id: &str,
    label: &str,
    kind: FilterKind,
    options: Vec<SelectOption>,
    default: Option<&str>,
    exclusion: bool,
) -> (r: Filter)
    ensures
        filter_view(r) == (
            id@,
            label@,
            kind,
            options@.map_values(|o: SelectOption| o@),
            None::<Seq<char>>,
            match default {
                Some(d) => Some(d@),
                None => None,
            },
            exclusion,
        ),
{
    Filter {
        id: id.to_owned(),
        label: label.to_owned(),
        kind,
        options,
        placeholder: None,
        default: match default {
            Some(d) => Some(d.to_owned()),
            None => None,
        },
        exclusion,
    }
}

/// Publication status of a manga.
#[derive(PartialEq, Eq, Structural, Clone, Copy, Debug)]
pub enum Status {
    Ongoing,
    Completed,
    Cancelled,
    Hiatus,
    Unknown,
}

/// Full details of one manga.
///
/// `rating` carries the rating as the site prints it; the host-facing layer
/// reads the number out of it.
#[derive(Debug)]
pub struct Manga {
    pub id: String,
    pub title: String,
    pub description: String,
    pub tags: Vec<Tag>,
    pub cover_url: String,
    pub author: Vec<String>,
    pub artist: Vec<String>,
    pub status: Status,
    pub last_updated: String,
    pub rating: Option<String>,
    pub views: Option<u64>,
}

/// One chapter of a manga.
///
/// `number` is the chapter number as text (for example `1` or `12.5`); the
/// host-facing layer reads the number out of it, `0` when it does not parse.
#[derive(Debug)]
pub struct Chapter {
    pub id: String,
    pub title: String,
    pub manga_id: String,
    pub number: String,
    pub language: String,
    pub upload_date: String,
    pub page_count: Option<u32>,
    pub scanlator: Option<String>,
    pub url: String,
    pub is_locked: bool,
}

/// One image of a chapter, numbered from zero.
#[derive(Debug)]
pub struct Page {
    pub number: u32,
    pub image_url: String,
}

/// The host methods a rate limit applies to.
#[derive(PartialEq, Eq, Structural, Clone, Copy, Debug)]
pub enum SourceMethod {
    Homepage,
    Search,
    Section,
    Manga,
    Chapters,
    Pages,
}

/// At most `per_minute` calls of `method` per minute.
#[derive(PartialEq, Eq, Structural, Clone, Copy, Debug)]
pub struct RateLimit {
    pub method: SourceMethod,
    pub per_minute: u32,
}

/// How a homepage section is laid out.
#[derive(PartialEq, Eq, Structural, Clone, Copy, Debug)]
pub enum SectionLayout {
    SingleRow,
    TripleRow,
}

/// What a source declares about itself: its id, display name, version,
/// language, site root, the hosts it may reach, and whether it is adult
/// content.
#[derive(Debug)]
pub struct SourceInfo {
    pub id: String,
    pub name: String,
    pub version: String,
    pub language: String,
    pub base_url: String,
    pub hosts: Vec<String>,
    pub nsfw: bool,
}

/// The views of a source's declaration: id, name, version, language, site
/// root, hosts and the adult flag.
pub open spec fn info_view(i: SourceInfo) -> (Seq<char>, Seq<char>, Seq<char>, Seq<char>, Seq<char>, Seq<Seq<char>>, bool) {
    (i.id@, i.name@, i.version@, i.language@, i.base_url@, i.hosts@.map_values(|h: String| h@), i.nsfw)
}

/// A source's declaration, with every host of `hosts` as given.
pub fn source_info(
    id: &str,
    name: &str,
    version: &str,
    language: &str,
    base_url: &str,
    hosts: Vec<&str>,
    nsfw: bool,
) -> (r: SourceInfo)
    ensures
        info_view(r) == (id@, name@, version@, language@, base_url@, hosts@.map_values(|h: &str| h@), nsfw),
{
    let mut owned_hosts: Vec<String> = Vec::new();
    let mut i: usize = 0;
    while i < hosts.len()
        invariant
            i <= hosts@.len(),
            owned_hosts@.map_values(|h: String| h@) == hosts@.take(i as int).map_values(|h: &str| h@),
        decreases hosts@.len() - i,
    {
        let ghost before = owned_hosts@;
        owned_hosts.push(hosts[i].to_owned());
        assert(owned_hosts@.map_values(|h: String| h@) =~= before.map_values(|h: String| h@).push(hosts@[i as int]@));
        assert(hosts@.take(i + 1).map_values(|h: &str| h@) =~= hosts@.take(i as int).map_values(|h: &str| h@).push(hosts@[i as int]@));
        i += 1;
    }
    assert(hosts@.take(hosts@.len() as int) =~= hosts@);
    SourceInfo {
        id: id.to_owned(),
        name: name.to_owned(),
        version: version.to_owned(),
        language: language.to_owned(),
        base_url: base_url.to_owned(),
        hosts: owned_hosts,
        nsfw,
    }
}

/// A row of the homepage: its id, title, layout, cards, and whether it
/// pages further.
#[derive(Debug)]
pub struct HomepageSection {
    pub id: String,
    pub title: String,
    pub layout: SectionLayout,
    pub items: Vec<MangaSimple>,
    pub paginable: bool,
}

/// A homepage row's id, title, layout and paging flag.
pub open spec fn section_head(s: HomepageSection) -> (Seq<char>, Seq<char>, SectionLayout, bool) {
    (s.id@, s.title@, s.layout, s.paginable)
}

/// Why a source call failed.
#[derive(Debug)]
pub enum SourceError {
    Parse { message: String },
    NotFound { message: String },
}

/// The message of a parse error.
pub open spec fn is_parse_error(e: SourceError, message: Seq<char>) -> bool {
    e matches SourceError::Parse { message: m } && m@ == message
}

/// The message of a not-found error.
pub open spec fn is_not_found(e: SourceError, message: Seq<char>) -> bool {
    e matches SourceError::NotFound { message: m } && m@ == message
}

/// A parse error carrying `message`.
pub fn parse_error(message: &str) -> (e: SourceError)
    ensures
        is_parse_error(e, message@),
{
    SourceError::Parse { message: message.to_owned() }
}

} // verus!
