//! Paging E-Hentai listings.
//!
//! E-Hentai has no offset pager: `?page=N` is accepted and ignored, and the
//! only way forward is `?next=<gid of the last row>`. Paging forward therefore
//! has to remember where each page started; a jump to a page never walked to
//! falls back to stepping forward from the deepest one known.
use vstd::prelude::*;
use crate::model::{
    MangaPage, MangaSimple,
};
use crate::text::{chars_of, contains, contains_exec, opt_string, push_str, str_eq, string_of};

verus! {

// ---------------------------------------------------------------------------
// Cursor cache
// ---------------------------------------------------------------------------

/// The cursor that opens each page of each listing URL.
pub struct CursorCache {
    entries: Vec<(String, u32, String)>,
}

/// The map a list of `(listing, page, cursor)` entries describes; a later
/// entry for the same listing page wins.
pub open spec fn entries_map(es: Seq<(String, u32, String)>) -> Map<(Seq<char>, u32), Seq<char>>
    decreases es.len(),
{
    if es.len() == 0 {
        Map::empty()
    } else {
        entries_map(es.drop_last()).insert((es.last().0@, es.last().1), es.last().2@)
    }
}

/// The cursor a cache holds for a listing page, if any.
pub open spec fn cursor_in(
    m: Map<(Seq<char>, u32), Seq<char>>,
    key: Seq<char>,
    page: u32,
) -> Option<Seq<char>> {
    if m.dom().contains((key, page)) {
        Some(m[(key, page)])
    } else {
        None
    }
}

proof fn lemma_entries_map_last(es: Seq<(String, u32, String)>, k: (Seq<char>, u32), i: int)
    requires
        0 <= i < es.len(),
        (es[i].0@, es[i].1) == k,
        forall|j: int| i < j < es.len() ==> (#[trigger] es[j].0@, es[j].1) != k,
    ensures
        entries_map(es).dom().contains(k),
        entries_map(es)[k] == es[i].2@,
    decreases es.len(),
{
    if i < es.len() - 1 {
        let d = es.drop_last();
        assert forall|j: int| i < j < d.len() implies (#[trigger] d[j].0@, d[j].1) != k by {
            assert(d[j] == es[j]);
        }
        lemma_entries_map_last(d, k, i);
    }
}

proof fn lemma_entries_map_absent(es: Seq<(String, u32, String)>, k: (Seq<char>, u32))
    requires
        forall|j: int| 0 <= j < es.len() ==> (#[trigger] es[j].0@, es[j].1) != k,
    ensures
        !entries_map(es).dom().contains(k),
    decreases es.len(),
{
    if es.len() > 0 {
        let d = es.drop_last();
        assert forall|j: int| 0 <= j < d.len() implies (#[trigger] d[j].0@, d[j].1) != k by {
            assert(d[j] == es[j]);
        }
        lemma_entries_map_absent(d, k);
    }
}

proof fn lemma_entries_map_update(
    es: Seq<(String, u32, String)>,
    i: int,
    e: (String, u32, String),
)
    requires
        0 <= i < es.len(),
        (e.0@, e.1) == (es[i].0@, es[i].1),
        forall|j: int| i < j < es.len() ==> (#[trigger] es[j].0@, es[j].1) != (e.0@, e.1),
    ensures
        entries_map(es.update(i, e)) == entries_map(es).insert((e.0@, e.1), e.2@),
    decreases es.len(),
{
    let u = es.update(i, e);
    if i < es.len() - 1 {
        assert(u.drop_last() =~= es.drop_last().update(i, e));
        let d = es.drop_last();
        assert forall|j: int| i < j < d.len() implies (#[trigger] d[j].0@, d[j].1) != (e.0@, e.1) by {
            assert(d[j] == es[j]);
        }
        lemma_entries_map_update(d, i, e);
        assert(entries_map(u) =~= entries_map(es).insert((e.0@, e.1), e.2@));
    } else {
        assert(u.drop_last() =~= es.drop_last());
        assert(entries_map(u) =~= entries_map(es).insert((e.0@, e.1), e.2@));
    }
}

impl CursorCache {
    /// The cursors the cache holds, by listing URL and page.
    pub closed spec fn view(&self) -> Map<(Seq<char>, u32), Seq<char>> {
        entries_map(self.entries@)
    }

    /// An empty cache.
    pub fn new() -> (r: CursorCache)
        ensures
            r.view() == Map::<(Seq<char>, u32), Seq<char>>::empty(),
    {
        CursorCache { entries: Vec::new() }
    }

    /// The index of the last entry for `key` and `page`.
    fn last_index(&self, key: &str, page: u32) -> (r: Option<usize>)
        ensures
            r matches Some(i) ==> i < self.entries@.len() && (self.entries@[i as int].0@,
            self.entries@[i as int].1) == (key@, page) && forall|j: int|
                i < j < self.entries@.len() ==> (#[trigger] self.entries@[j].0@,
                self.entries@[j].1) != (key@, page),
            r is None ==> forall|j: int|
                0 <= j < self.entries@.len() ==> (#[trigger] self.entries@[j].0@,
                self.entries@[j].1) != (key@, page),
    {
        let mut i = self.entries.len();
        while i > 0
            invariant
                i <= self.entries@.len(),
                forall|j: int|
                    i <= j < self.entries@.len() ==> (#[trigger] self.entries@[j].0@,
                    self.entries@[j].1) != (key@, page),
            decreases i,
        {
            let e = &self.entries[i - 1];
            if e.1 == page && str_eq(e.0.as_str(), key) {
                return Some(i - 1);
            }
            i -= 1;
        }
        None
    }

    /// Records that `cursor` opens page `page` of listing `key`.
    pub fn remember_cursor(&mut self, key: &str, page: u32, cursor: &str)
        ensures
            final(self).view() == old(self).view().insert((key@, page), cursor@),
    {
        let e = (key.to_owned(), page, cursor.to_owned());
        match self.last_index(key, page) {
            Some(i) => {
                proof {
                    lemma_entries_map_update(self.entries@, i as int, e);
                }
                self.entries.set(i, e);
            },
            None => {
                self.entries.push(e);
                assert(self.entries@.drop_last() =~= old(self).entries@);
            },
        }
    }

    /// The cursor that opens page `page` of listing `key`, if known.
    pub fn known_cursor(&self, key: &str, page: u32) -> (r: Option<String>)
        ensures
            opt_string(r) == cursor_in(self.view(), key@, page),
    {
        match self.last_index(key, page) {
            Some(i) => {
                proof {
                    lemma_entries_map_last(self.entries@, (key@, page), i as int);
                }
                Some(self.entries[i].2.clone())
            },
            None => {
                proof {
                    let es = self.entries@;
                    assert forall|j: int| 0 <= j < es.len() implies (#[trigger] es[j].0@, es[j].1) != (
                        key@,
                        page,
                    ) by {
                        assert((es[j].0@, es[j].1) == (self.entries@[j].0@, self.entries@[j].1));
                    }
                    lemma_entries_map_absent(self.entries@, (key@, page));
                }
                None
            },
        }
    }
}

/// A cursor recorded for a listing page is what the cache then gives back
/// for that page, and the cursors of every other listing page are unchanged.
pub proof fn lemma_known_after_remember(
    m: Map<(Seq<char>, u32), Seq<char>>,
    key: Seq<char>,
    page: u32,
    cursor: Seq<char>,
    other_key: Seq<char>,
    other_page: u32,
)
    ensures
        cursor_in(m.insert((key, page), cursor), key, page) == Some(cursor),
        (other_key, other_page) != (key, page) ==> cursor_in(
            m.insert((key, page), cursor),
            other_key,
            other_page,
        ) == cursor_in(m, other_key, other_page),
{
}

// ---------------------------------------------------------------------------
// Listing URLs
// ---------------------------------------------------------------------------

/// The listing URL that resumes after `cursor`.
pub open spec fn cursor_url(base: Seq<char>, cursor: Seq<char>) -> Seq<char> {
    base + (if contains(base, "?"@) {
        "&"@
    } else {
        "?"@
    }) + "next="@ + cursor
}

/// The listing URL that resumes after `cursor`.
pub fn with_cursor(base: &str, cursor: &str) -> (r: String)
    ensures
        r@ == cursor_url(base@, cursor@),
{
    let b = chars_of(base);
    let q = chars_of("?");
    let mut v = chars_of(base);
    if contains_exec(&b, &q) {
        push_str(&mut v, "&");
    } else {
        push_str(&mut v, "?");
    }
    push_str(&mut v, "next=");
    push_str(&mut v, cursor);
    string_of(&v)
}

// ---------------------------------------------------------------------------
// Walking to a page
// ---------------------------------------------------------------------------

/// Where a listing walk stands.
#[derive(PartialEq, Eq, Structural, Clone, Copy, Debug)]
pub enum WalkPhase {
    /// Fetching the listing's first page.
    First,
    /// Fetching a page whose cursor was known.
    Known,
    /// Fetching the first page only to learn the cursor of the second.
    Seed,
    /// Stepping forward one page at a time; `current` is being fetched.
    Walk,
}

/// What to do next while fetching a listing page.
pub enum ListingStep {
    /// Fetch this URL and hand its parsed listing to `step`.
    Fetch(String),
    /// The requested page's cards and the cursor of the page after it.
    Done(Vec<MangaSimple>, Option<String>),
}

/// A walk to page `page` of listing `base`.
pub struct ListingWalk {
    pub base: String,
    pub page: u32,
    pub phase: WalkPhase,
    pub current: u32,
    /// The URLs asked for so far, in order.
    pub fetched: Ghost<Seq<Seq<char>>>,
}

/// The deepest page from 2 to `page` whose cursor is known.
pub open spec fn deepest_known(m: Map<(Seq<char>, u32), Seq<char>>, key: Seq<char>, page: u32) -> Option<
    u32,
> {
    if exists|p: u32| 2 <= p <= page && m.dom().contains((key, p)) {
        Some(
            choose|p: u32|
                2 <= p <= page && m.dom().contains((key, p)) && forall|q: u32|
                    p < q <= page ==> !m.dom().contains((key, q)),
        )
    } else {
        None
    }
}

/// The page a walk is after: at least 1.
pub open spec fn target_page(page: u32) -> u32 {
    if page < 1 {
        1
    } else {
        page
    }
}

/// The first request of a walk to `page` of `base`, and where the walk
/// stands: page 1 is the listing URL itself; a page whose cursor is known is
/// opened with it; otherwise the walk resumes from the deepest known page,
/// or seeds the cursor of page 2 from the listing URL when none is known.
pub open spec fn start_of(
    m: Map<(Seq<char>, u32), Seq<char>>,
    base: Seq<char>,
    page: u32,
) -> (WalkPhase, u32, Seq<char>) {
    let p = target_page(page);
    if p == 1 {
        (WalkPhase::First, 1, base)
    } else if m.dom().contains((base, p)) {
        (WalkPhase::Known, p, cursor_url(base, m[(base, p)]))
    } else {
        match deepest_known(m, base, p) {
            Some(d) => (WalkPhase::Walk, d, cursor_url(base, m[(base, d)])),
            None => (WalkPhase::Seed, 1, base),
        }
    }
}

impl ListingWalk {
    /// The walk is consistent: it never passes its target, and a seeding or
    /// stepping walk targets page 2 or later.
    pub open spec fn wf(&self) -> bool {
        &&& self.current <= self.page
        &&& self.page >= 1
        &&& self.phase == WalkPhase::Seed ==> self.current == 1 && self.page >= 2
        &&& self.phase == WalkPhase::Walk ==> self.current >= 2
        &&& self.phase == WalkPhase::Known ==> self.current == self.page && self.page >= 2
        &&& (self.phase == WalkPhase::First || self.phase == WalkPhase::Known) ==> self.fetched@.len() == 1
    }

    /// The cursor of the page being fetched is in the cache: a walk opening a
    /// known page, or stepping forward, fetches pages whose cursor `m` holds.
    pub open spec fn cursor_known(&self, m: Map<(Seq<char>, u32), Seq<char>>) -> bool {
        (self.phase == WalkPhase::Known || self.phase == WalkPhase::Walk) ==> m.dom().contains(
            (self.base@, self.current),
        )
    }

    /// Pages left to walk before the target is reached.
    pub open spec fn remaining(&self) -> int {
        match self.phase {
            WalkPhase::Seed => self.page + 1,
            WalkPhase::Walk => self.page - self.current,
            _ => 0,
        }
    }

    /// Starts a walk to page `page` of listing `base`, returning the walk and
    /// the first URL to fetch.
    pub fn start(base: &str, page: u32, cache: &CursorCache) -> (r: (ListingWalk, String))
        ensures
            r.0.base@ == base@,
            r.0.page == target_page(page),
            (r.0.phase, r.0.current, r.1@) == start_of(cache.view(), base@, page),
            r.0.wf(),
            r.0.cursor_known(cache.view()),
            r.0.fetched@ == seq![r.1@],
    {
        let p = if page < 1 {
            1
        } else {
            page
        };
        if p == 1 {
            let url = base.to_owned();
            let ghost g = seq![url@];
            return (
                ListingWalk {
                    base: base.to_owned(),
                    page: p,
                    phase: WalkPhase::First,
                    current: 1,
                    fetched: Ghost(g),
                },
                url,
            );
        }
        match cache.known_cursor(base, p) {
            Some(c) => {
                let url = with_cursor(base, c.as_str());
                let ghost g = seq![url@];
                return (
                    ListingWalk {
                        base: base.to_owned(),
                        page: p,
                        phase: WalkPhase::Known,
                        current: p,
                        fetched: Ghost(g),
                    },
                    url,
                );
            },
            None => {},
        }
        let mut cand = p;
        while cand > 2
            invariant
                2 <= cand <= p,
                p == target_page(page),
                !cache.view().dom().contains((base@, p)),
                forall|q: u32| cand <= q <= p ==> !cache.view().dom().contains((base@, q)),
            decreases cand,
        {
            cand -= 1;
            match cache.known_cursor(base, cand) {
                Some(c) => {
                    proof {
                        let d = choose|d: u32|
                            2 <= d <= p && cache.view().dom().contains((base@, d)) && forall|q: u32|
                                d < q <= p ==> !cache.view().dom().contains((base@, q));
                        assert(2 <= cand <= p && cache.view().dom().contains((base@, cand))
                            && forall|q: u32| cand < q <= p ==> !cache.view().dom().contains((base@, q)));
                        if d < cand {
                            assert(!cache.view().dom().contains((base@, cand)));
                        }
                        if cand < d {
                            assert(!cache.view().dom().contains((base@, d)));
                        }
                    }
                    let url = with_cursor(base, c.as_str());
                    let ghost g = seq![url@];
                    return (
                        ListingWalk {
                            base: base.to_owned(),
                            page: p,
                            phase: WalkPhase::Walk,
                            current: cand,
                            fetched: Ghost(g),
                        },
                        url,
                    );
                },
                None => {},
            }
        }
        assert forall|q: u32| 2 <= q <= p implies !cache.view().dom().contains((base@, q)) by {}
        let url = base.to_owned();
        let ghost g = seq![url@];
        (
            ListingWalk {
                base: base.to_owned(),
                page: p,
                phase: WalkPhase::Seed,
                current: 1,
                fetched: Ghost(g),
            },
            url,
        )
    }

    /// Takes the parsed listing (`items`, `next`) the last fetched URL gave,
    /// records the cursor it carries, and says what to fetch next or returns
    /// the requested page.
    ///
    /// Every fetch the walk asks for brings it strictly closer to its target,
    /// so a walk ends after at most `page + 2` fetches.
    pub fn step(
        &mut self,
        cache: &mut CursorCache,
        items: Vec<MangaSimple>,
        next: Option<String>,
    ) -> (r: ListingStep)
        requires
            old(self).wf(),
            old(self).cursor_known(old(cache).view()),
            (old(self).phase == WalkPhase::Known || old(self).phase == WalkPhase::Walk) && next is Some
                ==> old(self).current < u32::MAX,
        ensures
            final(self).wf(),
            final(self).cursor_known(final(cache).view()),
            (old(self).phase == WalkPhase::Known || (old(self).phase == WalkPhase::Walk
                && old(self).current >= old(self).page)) ==> final(cache).view().dom().contains(
                (old(self).base@, old(self).page),
            ),
            final(self).base@ == old(self).base@,
            final(self).page == old(self).page,
            r is Fetch ==> 0 <= final(self).remaining() < old(self).remaining(),
            r matches ListingStep::Fetch(u) ==> final(self).fetched@ == old(self).fetched@.push(u@),
            r is Done ==> final(self).fetched@ == old(self).fetched@,
            ({
                let b = old(self).base@;
                let m = old(cache).view();
                match old(self).phase {
                    WalkPhase::First => {
                        &&& final(cache).view() == (match next {
                            Some(c) => m.insert((b, 2), c@),
                            None => m,
                        })
                        &&& r matches ListingStep::Done(i, n) && i@ == items@ && opt_string(n)
                            == opt_string(next)
                    },
                    WalkPhase::Known => {
                        &&& final(cache).view() == (match next {
                            Some(c) => m.insert((b, (old(self).page + 1) as u32), c@),
                            None => m,
                        })
                        &&& r matches ListingStep::Done(i, n) && i@ == items@ && opt_string(n)
                            == opt_string(next)
                    },
                    WalkPhase::Seed => match next {
                        None => {
                            &&& final(cache).view() == m
                            &&& r matches ListingStep::Done(i, n) && i@.len() == 0 && n is None
                        },
                        Some(c) => {
                            &&& final(cache).view() == m.insert((b, 2), c@)
                            &&& final(self).phase == WalkPhase::Walk
                            &&& final(self).current == 2
                            &&& r matches ListingStep::Fetch(u) && u@ == cursor_url(b, c@)
                        },
                    },
                    WalkPhase::Walk => {
                        let cur = old(self).current;
                        &&& final(cache).view() == (match next {
                            Some(c) => m.insert((b, (cur + 1) as u32), c@),
                            None => m,
                        })
                        &&& if cur >= old(self).page {
                            r matches ListingStep::Done(i, n) && i@ == items@ && opt_string(n)
                                == opt_string(next)
                        } else {
                            match next {
                                None => r matches ListingStep::Done(i, n) && i@.len() == 0
                                    && n is None,
                                Some(c) => {
                                    &&& final(self).phase == WalkPhase::Walk
                                    &&& final(self).current == cur + 1
                                    &&& r matches ListingStep::Fetch(u) && u@ == cursor_url(b, c@)
                                },
                            }
                        }
                    },
                }
            }),
    {
        match self.phase {
            WalkPhase::First => {
                if let Some(c) = &next {
                    cache.remember_cursor(self.base.as_str(), 2, c.as_str());
                }
                ListingStep::Done(items, next)
            },
            WalkPhase::Known => {
                if let Some(c) = &next {
                    cache.remember_cursor(self.base.as_str(), self.page + 1, c.as_str());
                }
                ListingStep::Done(items, next)
            },
            WalkPhase::Seed => match next {
                None => ListingStep::Done(Vec::new(), None),
                Some(c) => {
                    cache.remember_cursor(self.base.as_str(), 2, c.as_str());
                    self.phase = WalkPhase::Walk;
                    self.current = 2;
                    let url = with_cursor(self.base.as_str(), c.as_str());
                    self.fetched = Ghost(self.fetched@.push(url@));
                    ListingStep::Fetch(url)
                },
            },
            WalkPhase::Walk => {
                if let Some(c) = &next {
                    cache.remember_cursor(self.base.as_str(), self.current + 1, c.as_str());
                }
                if self.current >= self.page {
                    return ListingStep::Done(items, next);
                }
                match next {
                    None => ListingStep::Done(Vec::new(), None),
                    Some(c) => {
                        self.current = self.current + 1;
                        let url = with_cursor(self.base.as_str(), c.as_str());
                        self.fetched = Ghost(self.fetched@.push(url@));
                        ListingStep::Fetch(url)
                    },
                }
            },
        }
    }
}

/// A page whose cursor is cached (or the first page) costs one fetch: the
/// walk opens it directly, and its first step (see `step`) returns it.
/// A walk that reached page `p` by a known cursor or by stepping to it leaves
/// that cursor cached (see `step`), so asking for `p` again is one fetch.
pub proof fn lemma_cached_page_is_one_fetch(
    m: Map<(Seq<char>, u32), Seq<char>>,
    base: Seq<char>,
    page: u32,
)
    requires
        target_page(page) == 1 || m.dom().contains((base, target_page(page))),
    ensures
        target_page(page) == 1 ==> start_of(m, base, page) == (WalkPhase::First, 1u32, base),
        target_page(page) > 1 ==> start_of(m, base, page) == (
            WalkPhase::Known,
            target_page(page),
            cursor_url(base, m[(base, target_page(page))]),
        ),
{
}

/// Asking again for a page a walk reached costs one fetch.
///
/// A walk that reached page `page` of `base` (a page after the first) by a
/// known cursor or by stepping onto it has that page's cursor in its cache
/// (`step` keeps `cursor_known`). On any later cache that still holds the
/// cursors of `base`, a new walk to that page opens it directly with the
/// same cursor: `start` gives a `Known` walk that has asked for that single
/// URL, its first `step` returns the page's cards and next cursor, and a
/// `Done` step asks for nothing more.
pub proof fn lemma_reached_page_is_one_fetch(
    w: ListingWalk,
    m1: Map<(Seq<char>, u32), Seq<char>>,
    m2: Map<(Seq<char>, u32), Seq<char>>,
)
    requires
        w.wf(),
        w.cursor_known(m1),
        w.phase == WalkPhase::Known || (w.phase == WalkPhase::Walk && w.current >= w.page),
        forall|p: u32|
            #[trigger] m1.dom().contains((w.base@, p)) ==> m2.dom().contains((w.base@, p)) && m2[(w.base@, p)]
                == m1[(w.base@, p)],
    ensures
        m1.dom().contains((w.base@, w.page)),
        start_of(m2, w.base@, w.page) == (
            WalkPhase::Known,
            w.page,
            cursor_url(w.base@, m1[(w.base@, w.page)]),
        ),
{
    assert(m1.dom().contains((w.base@, w.current)));
}

/// A walk opened on a page whose cursor is known has asked for exactly one
/// URL.
pub proof fn lemma_known_walk_fetches_once(w: ListingWalk)
    requires
        w.wf(),
        w.phase == WalkPhase::Known,
    ensures
        w.fetched@.len() == 1,
{
}

/// A listing page as the host shows it: its cards, with a next page exactly
/// when the listing names a cursor for one.
pub fn listing_page(items: Vec<MangaSimple>, next: Option<String>) -> (r: MangaPage)
    ensures
        r.items@ == items@,
        r.has_next == next is Some,
{
    MangaPage { has_next: next.is_some(), items }
}

} // verus!
